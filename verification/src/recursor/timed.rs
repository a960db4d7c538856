//! Small bounded tables whose entries expire: names whose resolution failed a moment ago,
//! and validated keys. Times are in milliseconds.

use crate::name::{same_name, Labels, Name};
use crate::recursor::anchor::Dnskey;
use crate::recursor::chain::clone_keys;
use crate::recursor::trust::dnskeys_v;
use vstd::prelude::*;

verus! {

/// How many failed names are remembered.
pub const NEG_RESOLVE_CAP: usize = 256;

/// How long a failed name is remembered.
pub const NEG_RESOLVE_TTL_MS: u64 = 300_000;

/// How many zones' keys are kept.
pub const POSITIVE_CACHE_CAP: usize = 256;

/// How many unreachable zones are remembered.
pub const NEGATIVE_CACHE_CAP: usize = 256;

/// How long an unreachable zone is remembered.
pub const NEGATIVE_TTL_MS: u64 = 300_000;

/// Shortest and longest time that keys are kept, in seconds.
pub const MIN_KEY_TTL: u64 = 60;

pub const MAX_KEY_TTL: u64 = 86_400;

/// An entry of a table.
#[derive(Debug)]
pub struct TimedEntry<V> {
    pub name: Name,
    pub rtype: u16,
    pub expiry: u64,
    pub value: V,
}

/// A table of at most `cap` entries, found by name and number.
#[derive(Debug)]
pub struct TimedTable<V> {
    pub entries: Vec<TimedEntry<V>>,
    pub cap: usize,
}

/// The first entry of a key, from `i` on.
pub open spec fn timed_at<V>(s: Seq<TimedEntry<V>>, name: Labels, rtype: u16, i: int) -> Option<int>
    decreases s.len() - i,
{
    if i < 0 || i >= s.len() {
        None
    } else if s[i].rtype == rtype && same_name(s[i].name@, name) {
        Some(i)
    } else {
        timed_at(s, name, rtype, i + 1)
    }
}

/// Expiry time and value under a key.
pub open spec fn timed_lookup<V>(s: Seq<TimedEntry<V>>, name: Labels, rtype: u16) -> Option<
    (u64, V),
> {
    match timed_at(s, name, rtype, 0) {
        Some(i) => Some((s[i].expiry, s[i].value)),
        None => None,
    }
}

/// No two entries have the same key.
pub open spec fn distinct_keys<V>(s: Seq<TimedEntry<V>>) -> bool {
    forall|i: int, j: int|
        0 <= i < j < s.len() ==> !((#[trigger] s[i]).rtype == (#[trigger] s[j]).rtype && same_name(
            s[i].name@,
            s[j].name@,
        ))
}

proof fn lemma_found<V>(s: Seq<TimedEntry<V>>, name: Labels, rtype: u16, i: int)
    requires
        0 <= i,
    ensures
        match timed_at(s, name, rtype, i) {
            Some(p) => i <= p < s.len() && s[p].rtype == rtype && same_name(s[p].name@, name),
            None => forall|j: int|
                i <= j < s.len() ==> !((#[trigger] s[j]).rtype == rtype && same_name(
                    s[j].name@,
                    name,
                )),
        },
    decreases s.len() - i,
{
    if i < s.len() {
        lemma_found(s, name, rtype, i + 1);
    }
}

proof fn lemma_unique<V>(s: Seq<TimedEntry<V>>, name: Labels, rtype: u16, p: int)
    requires
        distinct_keys(s),
        0 <= p < s.len(),
        s[p].rtype == rtype,
        same_name(s[p].name@, name),
    ensures
        timed_at(s, name, rtype, 0) == Some(p),
{
    lemma_found(s, name, rtype, 0);
    let q = timed_at(s, name, rtype, 0)->0;
    if q < p {
        assert(same_name(s[q].name@, s[p].name@));
    } else if p < q {
        assert(same_name(s[p].name@, s[q].name@));
    }
}

/// Removing an entry changes the lookup of its key only.
proof fn lemma_remove<V>(s: Seq<TimedEntry<V>>, p: int, name: Labels, rtype: u16)
    requires
        distinct_keys(s),
        0 <= p < s.len(),
    ensures
        distinct_keys(s.remove(p)),
        timed_lookup(s.remove(p), name, rtype) == (if s[p].rtype == rtype && same_name(
            s[p].name@,
            name,
        ) {
            None
        } else {
            timed_lookup(s, name, rtype)
        }),
{
    let t = s.remove(p);
    assert forall|i: int, j: int| 0 <= i < j < t.len() implies !((#[trigger] t[i]).rtype == (
    #[trigger] t[j]).rtype && same_name(t[i].name@, t[j].name@)) by {
        let a = if i < p {
            i
        } else {
            i + 1
        };
        let b = if j < p {
            j
        } else {
            j + 1
        };
        assert(t[i] == s[a]);
        assert(t[j] == s[b]);
    }
    lemma_found(s, name, rtype, 0);
    lemma_found(t, name, rtype, 0);
    match timed_at(s, name, rtype, 0) {
        Some(q) => {
            if q == p {
                assert forall|j: int| 0 <= j < t.len() implies !((#[trigger] t[j]).rtype == rtype
                    && same_name(t[j].name@, name)) by {
                    let b = if j < p {
                        j
                    } else {
                        j + 1
                    };
                    assert(t[j] == s[b]);
                    if t[j].rtype == rtype && same_name(t[j].name@, name) {
                        lemma_unique(s, name, rtype, b);
                    }
                }
            } else {
                let b = if q < p {
                    q
                } else {
                    q - 1
                };
                assert(t[b] == s[q]);
                lemma_unique(t, name, rtype, b);
                if s[p].rtype == rtype && same_name(s[p].name@, name) {
                    lemma_unique(s, name, rtype, p);
                }
            }
        },
        None => {
            if timed_at(t, name, rtype, 0) is Some {
                let r = timed_at(t, name, rtype, 0)->0;
                let b = if r < p {
                    r
                } else {
                    r + 1
                };
                assert(t[r] == s[b]);
            }
        },
    }
}

/// Adding an entry of a new key changes the lookup of that key only.
proof fn lemma_push<V>(s: Seq<TimedEntry<V>>, e: TimedEntry<V>, name: Labels, rtype: u16)
    requires
        distinct_keys(s),
        timed_lookup(s, e.name@, e.rtype) is None,
    ensures
        distinct_keys(s.push(e)),
        timed_lookup(s.push(e), name, rtype) == (if e.rtype == rtype && same_name(e.name@, name) {
            Some((e.expiry, e.value))
        } else {
            timed_lookup(s, name, rtype)
        }),
{
    let t = s.push(e);
    lemma_found(s, e.name@, e.rtype, 0);
    assert forall|i: int, j: int| 0 <= i < j < t.len() implies !((#[trigger] t[i]).rtype == (
    #[trigger] t[j]).rtype && same_name(t[i].name@, t[j].name@)) by {
        if j == s.len() {
            assert(t[i] == s[i]);
        } else {
            assert(t[i] == s[i] && t[j] == s[j]);
        }
    }
    if e.rtype == rtype && same_name(e.name@, name) {
        assert(t[s.len() as int] == e);
        lemma_unique(t, name, rtype, s.len() as int);
    } else {
        lemma_found(s, name, rtype, 0);
        match timed_at(s, name, rtype, 0) {
            Some(q) => {
                assert(t[q] == s[q]);
                lemma_unique(t, name, rtype, q);
            },
            None => {
                lemma_found(t, name, rtype, 0);
                if timed_at(t, name, rtype, 0) is Some {
                    let r = timed_at(t, name, rtype, 0)->0;
                    if r < s.len() {
                        assert(t[r] == s[r]);
                    }
                }
            },
        }
    }
}

/// What an entry under a key becomes when the table makes room.
pub open spec fn after_eviction<V>(old: Option<(u64, V)>, now: u64) -> Option<(u64, V)> {
    match old {
        Some((t, v)) => if t <= now {
            None
        } else {
            Some((t, v))
        },
        None => None,
    }
}

/// Some entry has expired.
pub open spec fn any_expired<V>(s: Seq<TimedEntry<V>>, now: u64) -> bool {
    exists|i: int| 0 <= i < s.len() && (#[trigger] s[i]).expiry <= now
}

impl<V> TimedTable<V> {
    /// Keys are distinct and not too many.
    pub open spec fn wf(&self) -> bool {
        distinct_keys(self.entries@) && self.entries@.len() <= self.cap && self.cap > 0
    }

    /// Expiry time and value under a key.
    pub open spec fn lookup(&self, name: Labels, rtype: u16) -> Option<(u64, V)> {
        timed_lookup(self.entries@, name, rtype)
    }

    /// An empty table.
    pub fn new(cap: usize) -> (r: TimedTable<V>)
        requires
            cap > 0,
        ensures
            r.wf(),
            r.cap == cap,
            forall|n: Labels, t: u16| r.lookup(n, t) is None,
    {
        TimedTable { entries: Vec::new(), cap }
    }

    fn find(&self, name: &Name, rtype: u16) -> (r: Option<usize>)
        ensures
            timed_at(self.entries@, name@, rtype, 0) == (match r {
                Some(i) => Some(i as int),
                None => None,
            }),
            r is Some ==> r->0 < self.entries@.len(),
    {
        let mut i: usize = 0;
        while i < self.entries.len()
            invariant
                i <= self.entries@.len(),
                timed_at(self.entries@, name@, rtype, 0) == timed_at(
                    self.entries@,
                    name@,
                    rtype,
                    i as int,
                ),
            decreases self.entries@.len() - i,
        {
            if self.entries[i].rtype == rtype && self.entries[i].name.same(name) {
                return Some(i);
            }
            i += 1;
        }
        None
    }

    /// The value under a key that has not expired.
    pub fn get(&self, name: &Name, rtype: u16, now: u64) -> (r: Option<&V>)
        ensures
            match (self.lookup(name@, rtype), r) {
                (Some((t, v)), Some(x)) => t > now && *x == v,
                (Some((t, _)), None) => t <= now,
                (None, None) => true,
                _ => false,
            },
    {
        match self.find(name, rtype) {
            Some(i) => if self.entries[i].expiry > now {
                Some(&self.entries[i].value)
            } else {
                None
            },
            None => None,
        }
    }

    /// Remove a key.
    pub fn remove(&mut self, name: &Name, rtype: u16)
        requires
            old(self).wf(),
        ensures
            final(self).wf(),
            final(self).cap == old(self).cap,
            forall|n: Labels, t: u16|
                #[trigger] final(self).lookup(n, t) == (if t == rtype && same_name(name@, n) {
                    None
                } else {
                    old(self).lookup(n, t)
                }),
            old(self).lookup(name@, rtype) is Some ==> final(self).entries@.len() == old(
                self,
            ).entries@.len() - 1,
            old(self).lookup(name@, rtype) is None ==> final(self).entries@ == old(self).entries@,
    {
        let ghost before = self.entries@;
        proof {
            lemma_found(before, name@, rtype, 0);
        }
        match self.find(name, rtype) {
            None => {
                proof {
                    assert forall|n: Labels, t: u16|
                        t == rtype && same_name(name@, n) implies #[trigger] self.lookup(
                        n,
                        t,
                    ) is None by {
                        lemma_found(before, n, t, 0);
                    }
                }
            },
            Some(p) => {
                self.entries.remove(p);
                proof {
                    assert forall|n: Labels, t: u16| #[trigger] self.lookup(n, t) == (if t == rtype
                        && same_name(name@, n) {
                        None
                    } else {
                        old(self).lookup(n, t)
                    }) by {
                        lemma_remove(before, p as int, n, t);
                    }
                    lemma_remove(before, p as int, name@, rtype);
                }
            },
        }
    }

    /// Drop the expired entries.
    fn drop_expired(&mut self, now: u64)
        requires
            old(self).wf(),
        ensures
            final(self).wf(),
            final(self).cap == old(self).cap,
            final(self).entries@.len() <= old(self).entries@.len(),
            any_expired(old(self).entries@, now) ==> final(self).entries@.len() < old(
                self,
            ).entries@.len(),
            forall|n: Labels, t: u16|
                #[trigger] final(self).lookup(n, t) == after_eviction(old(self).lookup(n, t), now),
    {
        let ghost start = self.entries@;
        let n: usize = self.entries.len();
        let mut left: usize = n;
        while left > 0
            invariant
                left <= self.entries@.len() <= n,
                n == start.len(),
                self.wf(),
                self.cap == old(self).cap,
                start == old(self).entries@,
                forall|j: int| 0 <= j < left ==> #[trigger] self.entries@[j] == start[j],
                forall|j: int|
                    left <= j < self.entries@.len() ==> (#[trigger] self.entries@[j]).expiry > now,
                self.entries@.len() < n <==> exists|j: int|
                    left <= j < n && (#[trigger] start[j]).expiry <= now,
                forall|nm: Labels, t: u16|
                    after_eviction(#[trigger] self.lookup(nm, t), now) == after_eviction(
                        old(self).lookup(nm, t),
                        now,
                    ),
            decreases left,
        {
            let i: usize = left - 1;
            assert(self.entries@[i as int] == start[i as int]);
            let ghost before = self.entries@;
            let ghost prev = *self;
            if self.entries[i].expiry <= now {
                self.entries.remove(i);
                proof {
                    assert forall|nm: Labels, t: u16|
                        after_eviction(#[trigger] self.lookup(nm, t), now) == after_eviction(
                            old(self).lookup(nm, t),
                            now,
                        ) by {
                        lemma_remove(before, i as int, nm, t);
                        lemma_found(before, nm, t, 0);
                        if before[i as int].rtype == t && same_name(before[i as int].name@, nm) {
                            lemma_unique(before, nm, t, i as int);
                        }
                        assert(after_eviction(prev.lookup(nm, t), now) == after_eviction(
                            old(self).lookup(nm, t),
                            now,
                        ));
                    }
                    lemma_remove(before, i as int, Seq::empty(), 0);
                    assert(start[i as int].expiry <= now);
                    assert forall|j: int| i <= j < self.entries@.len() implies (
                    #[trigger] self.entries@[j]).expiry > now by {
                        assert(self.entries@[j] == before[j + 1]);
                    }
                }
            } else {
                assert(start[i as int].expiry > now);
            }
            left = i;
        }
        proof {
            assert forall|nm: Labels, t: u16|
                #[trigger] self.lookup(nm, t) == after_eviction(old(self).lookup(nm, t), now) by {
                lemma_found(self.entries@, nm, t, 0);
                assert(after_eviction(self.lookup(nm, t), now) == after_eviction(
                    old(self).lookup(nm, t),
                    now,
                ));
            }
        }
    }

    /// Put a value under a key until `expiry`. Where the table is full and the key new,
    /// room is made first: by dropping what has expired, or else one entry, whichever.
    pub fn put(&mut self, name: &Name, rtype: u16, expiry: u64, value: V, now: u64)
        requires
            old(self).wf(),
        ensures
            final(self).wf(),
            final(self).cap == old(self).cap,
            final(self).lookup(name@, rtype) == Some((expiry, value)),
            others_kept(*old(self), *final(self), name@, rtype, now),
    {
        let ghost start = *self;
        let known = self.find(name, rtype).is_some();
        let full: bool = self.entries.len() >= self.cap && !known;
        let ghost mut victim: Labels = Seq::empty();
        let ghost mut vt: u16 = 0;
        if full {
            let mut expired: bool = false;
            let mut i: usize = 0;
            while i < self.entries.len()
                invariant
                    i <= self.entries@.len(),
                    *self == start,
                    expired <==> exists|j: int|
                        0 <= j < i && (#[trigger] self.entries@[j]).expiry <= now,
                decreases self.entries@.len() - i,
            {
                if self.entries[i].expiry <= now {
                    expired = true;
                }
                i += 1;
            }
            assert(expired == any_expired(start.entries@, now));
            if expired {
                self.drop_expired(now);
            } else {
                let first = self.entries[0].name.clone();
                let ft: u16 = self.entries[0].rtype;
                proof {
                    victim = first@;
                    vt = ft;
                    lemma_unique(start.entries@, first@, ft, 0);
                }
                self.remove(&first, ft);
            }
        }
        let ghost mid = *self;
        self.remove(name, rtype);
        let ghost bare = *self;
        let e = TimedEntry { name: name.clone(), rtype, expiry, value };
        self.entries.push(e);
        proof {
            assert(bare.lookup(name@, rtype) is None);
            lemma_push(bare.entries@, e, name@, rtype);
            assert forall|n: Labels, t: u16|
                !(t == rtype && same_name(name@, n)) implies #[trigger] self.lookup(n, t)
                == mid.lookup(n, t) by {
                lemma_push(bare.entries@, e, n, t);
                assert(bare.lookup(n, t) == mid.lookup(n, t));
            }
            lemma_found(start.entries@, name@, rtype, 0);
            if known {
                assert(mid == start);
            }
            if full && !any_expired(start.entries@, now) {
                assert(is_only_loss(start, *self, name@, rtype, victim, vt));
            }
        }
    }
}

/// What putting a value under a key does to the other keys: nothing, unless the table was
/// full and the key new; then what had expired is gone, or else one entry.
pub open spec fn others_kept<V>(
    before: TimedTable<V>,
    after: TimedTable<V>,
    name: Labels,
    rtype: u16,
    now: u64,
) -> bool {
    let full = before.entries@.len() >= before.cap && before.lookup(name, rtype) is None;
    let expired = any_expired(before.entries@, now);
    &&& !full ==> forall|n: Labels, t: u16|
        !(t == rtype && same_name(name, n)) ==> #[trigger] after.lookup(n, t) == before.lookup(n, t)
    &&& full && expired ==> forall|n: Labels, t: u16|
        !(t == rtype && same_name(name, n)) ==> #[trigger] after.lookup(n, t) == after_eviction(
            before.lookup(n, t),
            now,
        )
    &&& full && !expired ==> exists|victim: Labels, vt: u16|
        #[trigger] is_only_loss(before, after, name, rtype, victim, vt)
}

/// Of all keys but the new one, only the victim was lost.
pub open spec fn is_only_loss<V>(
    before: TimedTable<V>,
    after: TimedTable<V>,
    name: Labels,
    rtype: u16,
    victim: Labels,
    vt: u16,
) -> bool {
    forall|n: Labels, t: u16|
        !(t == rtype && same_name(name, n)) ==> #[trigger] after.lookup(n, t) == (if t == vt
            && same_name(victim, n) {
            None
        } else {
            before.lookup(n, t)
        })
}

/// The end of a time to live, in milliseconds.
pub open spec fn end_of(now: u64, ttl_ms: u64) -> u64 {
    if now + ttl_ms <= u64::MAX {
        (now + ttl_ms) as u64
    } else {
        u64::MAX
    }
}

/// The time to live that keys get, in seconds.
pub open spec fn key_ttl(ttl: u64) -> u64 {
    if ttl < MIN_KEY_TTL {
        MIN_KEY_TTL
    } else if ttl > MAX_KEY_TTL {
        MAX_KEY_TTL
    } else {
        ttl
    }
}

/// Names whose resolution failed a moment ago.
#[derive(Debug)]
pub struct NegResolveCache {
    pub table: TimedTable<bool>,
}

impl NegResolveCache {
    /// Nothing has failed.
    pub fn new() -> (r: NegResolveCache)
        ensures
            r.table.wf(),
            r.table.cap == NEG_RESOLVE_CAP,
            forall|n: Labels, t: u16| r.table.lookup(n, t) is None,
    {
        NegResolveCache { table: TimedTable::new(NEG_RESOLVE_CAP) }
    }

    /// Whether the name and type failed a moment ago.
    pub fn hit(&self, name: &Name, rtype: u16, now: u64) -> (r: bool)
        ensures
            r == (match self.table.lookup(name@, rtype) {
                Some((t, _)) => t > now,
                None => false,
            }),
    {
        self.table.get(name, rtype, now).is_some()
    }

    /// Remember that the name and type failed.
    pub fn insert(&mut self, name: &Name, rtype: u16, now: u64)
        requires
            old(self).table.wf(),
        ensures
            final(self).table.wf(),
            final(self).table.cap == old(self).table.cap,
            final(self).table.lookup(name@, rtype) == Some((end_of(now, NEG_RESOLVE_TTL_MS), true)),
            others_kept(old(self).table, final(self).table, name@, rtype, now),
    {
        self.insert_with_ttl(name, rtype, NEG_RESOLVE_TTL_MS, now);
    }

    /// Remember for a given time that the name and type failed.
    pub fn insert_with_ttl(&mut self, name: &Name, rtype: u16, ttl_ms: u64, now: u64)
        requires
            old(self).table.wf(),
        ensures
            final(self).table.wf(),
            final(self).table.cap == old(self).table.cap,
            final(self).table.lookup(name@, rtype) == Some((end_of(now, ttl_ms), true)),
            others_kept(old(self).table, final(self).table, name@, rtype, now),
    {
        let expiry: u64 = now.saturating_add(ttl_ms);
        self.table.put(name, rtype, expiry, true, now);
    }
}

/// Validated keys by zone, and zones that are out of reach.
#[derive(Debug)]
pub struct DnskeyCache {
    pub positive: TimedTable<Vec<Dnskey>>,
    pub negative: TimedTable<bool>,
}

impl DnskeyCache {
    /// Both tables are well-formed.
    pub open spec fn wf(&self) -> bool {
        self.positive.wf() && self.negative.wf()
    }

    /// Nothing is known.
    pub fn new() -> (r: DnskeyCache)
        ensures
            r.wf(),
            r.positive.cap == POSITIVE_CACHE_CAP,
            r.negative.cap == NEGATIVE_CACHE_CAP,
            forall|n: Labels, t: u16| r.positive.lookup(n, t) is None,
            forall|n: Labels, t: u16| r.negative.lookup(n, t) is None,
    {
        DnskeyCache {
            positive: TimedTable::new(POSITIVE_CACHE_CAP),
            negative: TimedTable::new(NEGATIVE_CACHE_CAP),
        }
    }

    /// The validated keys of a zone.
    pub fn get_positive(&self, zone: &Name, now: u64) -> (r: Option<Vec<Dnskey>>)
        ensures
            match (self.positive.lookup(zone@, 0), r) {
                (Some((t, k)), Some(x)) => t > now && dnskeys_v(x@) == dnskeys_v(k@),
                (Some((t, _)), None) => t <= now,
                (None, None) => true,
                _ => false,
            },
    {
        match self.positive.get(zone, 0, now) {
            Some(k) => Some(clone_keys(k)),
            None => None,
        }
    }

    /// Keep the validated keys of a zone; `ttl` is in seconds.
    pub fn put_positive(&mut self, zone: &Name, keys: Vec<Dnskey>, ttl: u64, now: u64)
        requires
            old(self).wf(),
        ensures
            final(self).wf(),
            final(self).negative == old(self).negative,
            final(self).positive.lookup(zone@, 0) == Some(
                (end_of(now, (key_ttl(ttl) * 1000) as u64), keys),
            ),
            final(self).positive.cap == old(self).positive.cap,
            others_kept(old(self).positive, final(self).positive, zone@, 0, now),
    {
        let secs: u64 = if ttl < MIN_KEY_TTL {
            MIN_KEY_TTL
        } else if ttl > MAX_KEY_TTL {
            MAX_KEY_TTL
        } else {
            ttl
        };
        let expiry: u64 = now.saturating_add(secs * 1000);
        self.positive.put(zone, 0, expiry, keys, now);
    }

    /// Forget the keys of a zone.
    pub fn invalidate_positive(&mut self, zone: &Name)
        requires
            old(self).wf(),
        ensures
            final(self).wf(),
            final(self).negative == old(self).negative,
            final(self).positive.cap == old(self).positive.cap,
            forall|n: Labels, t: u16|
                #[trigger] final(self).positive.lookup(n, t) == (if t == 0 && same_name(zone@, n) {
                    None
                } else {
                    old(self).positive.lookup(n, t)
                }),
    {
        self.positive.remove(zone, 0);
    }

    /// Whether a zone is known to be out of reach.
    pub fn has_negative(&self, zone: &Name, now: u64) -> (r: bool)
        ensures
            r == (match self.negative.lookup(zone@, 0) {
                Some((t, _)) => t > now,
                None => false,
            }),
    {
        self.negative.get(zone, 0, now).is_some()
    }

    /// Remember that a zone is out of reach.
    pub fn put_negative(&mut self, zone: &Name, now: u64)
        requires
            old(self).wf(),
        ensures
            final(self).wf(),
            final(self).positive == old(self).positive,
            final(self).negative.lookup(zone@, 0) == Some((end_of(now, NEGATIVE_TTL_MS), true)),
            final(self).negative.cap == old(self).negative.cap,
            others_kept(old(self).negative, final(self).negative, zone@, 0, now),
    {
        let expiry: u64 = now.saturating_add(NEGATIVE_TTL_MS);
        self.negative.put(zone, 0, expiry, true, now);
    }
}

/// An entry of a table is found by its name, in any case, and its type.
pub proof fn law_first_timed_entry<V>(s: Seq<TimedEntry<V>>, name: Labels, rtype: u16, from: int)
    requires
        0 <= from <= s.len(),
    ensures
        match timed_at(s, name, rtype, from) {
            Some(i) => {
                &&& from <= i < s.len()
                &&& s[i].rtype == rtype && same_name(s[i].name@, name)
                &&& forall|j: int| from <= j < i ==> !((#[trigger] s[j]).rtype == rtype && same_name((#[trigger] s[j]).name@, name))
            },
            None => forall|j: int| from <= j < s.len() ==> !((#[trigger] s[j]).rtype == rtype && same_name((#[trigger] s[j]).name@, name)),
        },
    decreases s.len() - from,
{
    if from < s.len() && !(s[from].rtype == rtype && same_name(s[from].name@, name)) {
        law_first_timed_entry(s, name, rtype, from + 1);
    }
}


/// Keys are kept for their TTL, but at least a minute and at most a day.
pub proof fn law_keys_are_kept_within_bounds(ttl: u64, now: u64, ms: u64)
    ensures
        60 <= key_ttl(ttl) <= 86_400,
        60 <= ttl <= 86_400 ==> key_ttl(ttl) == ttl,
        now + ms <= u64::MAX ==> end_of(now, ms) == now + ms,
        end_of(now, ms) >= now,
{
}

/// A table that has room, or has the entry already, forgets nothing when an entry is put; one
/// that is full forgets what has expired, and keeps all that has not; and where nothing has,
/// it forgets one entry at most.
pub proof fn law_tables_forget_only_when_full<V>(
    before: TimedTable<V>,
    after: TimedTable<V>,
    name: Labels,
    rtype: u16,
    now: u64,
    n: Labels,
    t: u16,
)
    requires
        others_kept(before, after, name, rtype, now),
        !(t == rtype && same_name(name, n)),
    ensures
        before.entries@.len() < before.cap || before.lookup(name, rtype) is Some ==> after.lookup(
            n,
            t,
        ) == before.lookup(n, t),
        (exists|i: int| 0 <= i < before.entries@.len() && (#[trigger] before.entries@[i]).expiry
            <= now) && before.lookup(n, t) is Some && (before.lookup(n, t)->0).0 > now
            ==> after.lookup(n, t) == before.lookup(n, t),
        after.lookup(n, t) is Some ==> after.lookup(n, t) == before.lookup(n, t),
{
    let full = before.entries@.len() >= before.cap && before.lookup(name, rtype) is None;
    if full && !any_expired(before.entries@, now) {
        let (victim, vt) = choose|victim: Labels, vt: u16|
            #[trigger] is_only_loss(before, after, name, rtype, victim, vt);
        assert(is_only_loss(before, after, name, rtype, victim, vt));
    }
}

/// What a table says of a name and type is what its entry for them says.
pub proof fn law_tables_say_what_they_hold<V>(s: Seq<TimedEntry<V>>, name: Labels, rtype: u16, i: int)
    requires
        distinct_keys(s),
        0 <= i < s.len(),
        s[i].rtype == rtype,
        same_name(s[i].name@, name),
    ensures
        timed_lookup(s, name, rtype) == Some((s[i].expiry, s[i].value)),
{
    law_first_timed_entry(s, name, rtype, 0);
    let k = timed_at(s, name, rtype, 0)->0;
    if k < i {
        assert(!(s[k].rtype == s[i].rtype && same_name(s[k].name@, s[i].name@)));
    }
}

} // verus!
