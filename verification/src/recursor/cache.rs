//! The cache of replies, keyed by name (in lower case), type and class.

use crate::bytes::{be16_bytes, be32_at, be32_bytes, copy_bytes, push_be16, read_be32};
use crate::name::{lower, Labels, Name};
use crate::wire::{
    byte_strings, records_v, Message, MessageV, Record, RecordV, RCODE_NOERROR, RCODE_NXDOMAIN,
    TYPE_SOA,
};
use vstd::prelude::*;

verus! {

/// What a kept reply is found by.
#[derive(Debug)]
pub struct CacheKey {
    pub name: Name,
    pub rtype: u16,
    pub class: u16,
}

impl CacheKey {
    /// A key; names are the same in any case.
    pub fn new(name: &Name, rtype: u16, class: u16) -> (r: CacheKey)
        ensures
            r.name@ == lower(name@),
            r.rtype == rtype,
            r.class == class,
    {
        CacheKey { name: name.to_lowercase(), rtype, class }
    }

    /// The key as byte strings: the labels, the type and the class.
    fn parts(&self) -> (r: Vec<Vec<u8>>)
        ensures
            byte_strings(r@) == key_parts(self.name@, self.rtype, self.class),
    {
        let mut out: Vec<Vec<u8>> = Vec::new();
        let mut i: usize = 0;
        while i < self.name.labels.len()
            invariant
                i <= self.name.labels@.len(),
                out@.len() == i,
                forall|j: int| 0 <= j < i ==> (#[trigger] out@[j])@ == self.name@[j],
            decreases self.name.labels@.len() - i,
        {
            out.push(copy_bytes(self.name.labels[i].as_slice()));
            i += 1;
        }
        let mut t: Vec<u8> = Vec::new();
        push_be16(&mut t, self.rtype);
        let mut c: Vec<u8> = Vec::new();
        push_be16(&mut c, self.class);
        assert(t@ =~= be16_bytes(self.rtype));
        assert(c@ =~= be16_bytes(self.class));
        out.push(t);
        out.push(c);
        assert(byte_strings(out@) =~= key_parts(self.name@, self.rtype, self.class));
        out
    }
}

/// A key as byte strings: the labels, the type and the class.
pub open spec fn key_parts(name: Labels, rtype: u16, class: u16) -> Seq<Seq<u8>> {
    name.push(be16_bytes(rtype)).push(be16_bytes(class))
}

/// Two keys have the same byte strings only if they are the same.
pub proof fn law_cache_keys_are_distinct(n: Labels, t: u16, c: u16, n2: Labels, t2: u16, c2: u16)
    requires
        key_parts(n, t, c) == key_parts(n2, t2, c2),
    ensures
        n == n2 && t == t2 && c == c2,
{
    let a = key_parts(n, t, c);
    let b = key_parts(n2, t2, c2);
    assert(n =~= a.subrange(0, a.len() - 2));
    assert(n2 =~= b.subrange(0, b.len() - 2));
    crate::bytes::lemma_be16_roundtrip(t);
    crate::bytes::lemma_be16_roundtrip(t2);
    crate::bytes::lemma_be16_roundtrip(c);
    crate::bytes::lemma_be16_roundtrip(c2);
    assert(a[a.len() - 2] == be16_bytes(t));
    assert(b[b.len() - 2] == be16_bytes(t2));
    assert(a[a.len() - 1] == be16_bytes(c));
    assert(b[b.len() - 1] == be16_bytes(c2));
}

/// The concurrent map of the `moka` crate.
#[verifier::external_type_specification]
#[verifier::external_body]
#[verifier::reject_recursive_types(K)]
#[verifier::reject_recursive_types(V)]
#[verifier::reject_recursive_types(S)]
pub struct ExMokaCache<K, V, S>(moka::sync::Cache<K, V, S>);

/// The entries of a `moka` cache: reply bytes and the time at which they expire.
pub uninterp spec fn entries(
    c: moka::sync::Cache<Vec<Vec<u8>>, (Vec<u8>, u64)>,
) -> Map<Seq<Seq<u8>>, (Seq<u8>, u64)>;

/// The number of entries for which a `moka` cache was made.
pub uninterp spec fn capacity(c: moka::sync::Cache<Vec<Vec<u8>>, (Vec<u8>, u64)>) -> u64;

/// The map holds this reply and expiry time under the key.
pub open spec fn holds(
    m: Map<Seq<Seq<u8>>, (Seq<u8>, u64)>,
    key: Seq<Seq<u8>>,
    bytes: Seq<u8>,
    expires: u64,
) -> bool {
    m.contains_key(key) && m[key] == (bytes, expires)
}

/// No entries at all.
pub open spec fn no_entries() -> Map<Seq<Seq<u8>>, (Seq<u8>, u64)> {
    Map::empty()
}

/// `moka::sync::Cache::builder().max_capacity(..).build()`: an empty cache of this capacity.
#[verifier::external_body]
fn store_new(max_entries: u64) -> (r: moka::sync::Cache<Vec<Vec<u8>>, (Vec<u8>, u64)>)
    ensures
        entries(r) == no_entries(),
        capacity(r) == max_entries,
{
    moka::sync::Cache::builder().max_capacity(max_entries).build()
}

/// `moka::sync::Cache::get`: what it returns is the entry under the key, and where it
/// returns nothing there was none. Entries may be dropped behind the lookup, since a bounded
/// cache forgets.
#[verifier::external_body]
fn store_get(
    c: &mut moka::sync::Cache<Vec<Vec<u8>>, (Vec<u8>, u64)>,
    key: &Vec<Vec<u8>>,
) -> (r: Option<(Vec<u8>, u64)>)
    ensures
        entries(*final(c)).submap_of(entries(*old(c))),
        match r {
            Some((b, t)) => holds(entries(*old(c)), byte_strings(key@), b@, t),
            None => !entries(*old(c)).contains_key(byte_strings(key@)),
        },
        capacity(*final(c)) == capacity(*old(c)),
{
    c.get(key)
}

/// `moka::sync::Cache::insert`: afterwards the new entry is in the cache, unless that was
/// made for no entries, and what is there under other keys was there before. Others may be
/// dropped, and this one by a later call, since the cache is bounded.
#[verifier::external_body]
fn store_insert(
    c: &mut moka::sync::Cache<Vec<Vec<u8>>, (Vec<u8>, u64)>,
    key: Vec<Vec<u8>>,
    bytes: Vec<u8>,
    expires: u64,
)
    ensures
        entries(*final(c)).submap_of(
            entries(*old(c)).insert(byte_strings(key@), (bytes@, expires)),
        ),
        capacity(*old(c)) > 0 ==> holds(
            entries(*final(c)),
            byte_strings(key@),
            bytes@,
            expires,
        ),
        capacity(*final(c)) == capacity(*old(c)),
{
    c.insert(key, (bytes, expires))
}

/// `moka::sync::Cache::invalidate`: no entry is left under the key, and none is new.
#[verifier::external_body]
fn store_remove(c: &mut moka::sync::Cache<Vec<Vec<u8>>, (Vec<u8>, u64)>, key: &Vec<Vec<u8>>)
    ensures
        entries(*final(c)).submap_of(entries(*old(c)).remove(byte_strings(key@))),
        capacity(*final(c)) == capacity(*old(c)),
{
    c.invalidate(key)
}

/// `moka::sync::Cache::invalidate_all`: by its documentation, no entry that was written
/// before is found any more.
#[verifier::external_body]
fn store_clear(c: &mut moka::sync::Cache<Vec<Vec<u8>>, (Vec<u8>, u64)>)
    ensures
        entries(*final(c)) == no_entries(),
        capacity(*final(c)) == capacity(*old(c)),
{
    c.invalidate_all()
}

/// Whether a list holds each entry of a map once, and nothing else.
pub open spec fn lists(
    l: Seq<(Vec<Vec<u8>>, Vec<u8>, u64)>,
    m: Map<Seq<Seq<u8>>, (Seq<u8>, u64)>,
) -> bool {
    &&& forall|i: int|
        0 <= i < l.len() ==> holds(m, byte_strings((#[trigger] l[i]).0@), l[i].1@, l[i].2)
    &&& forall|i: int, j: int|
        0 <= i < j < l.len() ==> byte_strings((#[trigger] l[i]).0@) != byte_strings(
            (#[trigger] l[j]).0@,
        )
    &&& forall|k: Seq<Seq<u8>>| #[trigger]
        m.contains_key(k) ==> exists|i: int|
            0 <= i < l.len() && byte_strings((#[trigger] l[i]).0@) == k
}

/// `moka::sync::Cache::iter`: the key and value of every entry, each once, in no
/// particular order.
#[verifier::external_body]
fn store_list(c: &moka::sync::Cache<Vec<Vec<u8>>, (Vec<u8>, u64)>) -> (r: Vec<
    (Vec<Vec<u8>>, Vec<u8>, u64),
>)
    ensures
        lists(r@, entries(*c)),
{
    c.iter().map(|(k, v)| ((*k).clone(), v.0, v.1)).collect()
}

/// The limits on how long a reply is kept, in seconds.
#[derive(Debug, Clone, Copy, PartialEq, Eq, Structural)]
pub struct TtlLimits {
    pub min_ttl: u32,
    pub max_ttl: u32,
    /// For negative replies without SOA record.
    pub negative_ttl: u32,
    /// Hard upper bound for negative replies, over `min_ttl` too: a stale one does more
    /// harm than a stale positive one.
    pub max_negative_ttl: u32,
}

/// The MINIMUM field of a SOA record.
pub open spec fn soa_minimum(r: RecordV) -> Option<u32> {
    if r.rtype == TYPE_SOA && r.rdata.len() >= 20 {
        Some(be32_at(r.rdata, r.rdata.len() - 4))
    } else {
        None
    }
}

/// The MINIMUM field of the first SOA record, from `i` on.
pub open spec fn first_soa_minimum(rs: Seq<RecordV>, i: int) -> Option<u32>
    decreases rs.len() - i,
{
    if i < 0 || i >= rs.len() {
        None
    } else if soa_minimum(rs[i]) is Some {
        soa_minimum(rs[i])
    } else {
        first_soa_minimum(rs, i + 1)
    }
}

/// The smallest TTL of a list of records that is not empty.
pub open spec fn smallest_ttl(rs: Seq<RecordV>) -> u32
    decreases rs.len(),
{
    if rs.len() <= 1 {
        rs[0].ttl
    } else {
        let rest = smallest_ttl(rs.drop_last());
        if rest <= rs.last().ttl {
            rest
        } else {
            rs.last().ttl
        }
    }
}

/// The value brought down to `high` and then up to `low`.
pub open spec fn bounded(v: u32, low: u32, high: u32) -> u32 {
    let down = if v < high {
        v
    } else {
        high
    };
    if down > low {
        down
    } else {
        low
    }
}

/// The value brought up to `low` and then down to `high`.
pub open spec fn capped(v: u32, low: u32, high: u32) -> u32 {
    let up = if v > low {
        v
    } else {
        low
    };
    if up < high {
        up
    } else {
        high
    }
}

/// How long a reply is kept, in seconds; zero for not at all.
pub open spec fn ttl_of(l: TtlLimits, m: MessageV) -> u32 {
    if m.answers.len() == 0 && (m.header.rcode == RCODE_NXDOMAIN || m.header.rcode
        == RCODE_NOERROR) {
        let v = match first_soa_minimum(m.authorities, 0) {
            Some(v) => v,
            None => l.negative_ttl,
        };
        capped(v, l.min_ttl, l.max_negative_ttl)
    } else if m.header.rcode == RCODE_NOERROR {
        bounded(smallest_ttl(m.answers), l.min_ttl, l.max_ttl)
    } else {
        0
    }
}

fn clamp_ttl(v: u32, low: u32, high: u32) -> (r: u32)
    ensures
        r == bounded(v, low, high),
{
    let down: u32 = if v < high {
        v
    } else {
        high
    };
    if down > low {
        down
    } else {
        low
    }
}

fn cap_ttl(v: u32, low: u32, high: u32) -> (r: u32)
    ensures
        r == capped(v, low, high),
{
    let up: u32 = if v > low {
        v
    } else {
        low
    };
    if up < high {
        up
    } else {
        high
    }
}

fn find_soa_minimum(rs: &Vec<Record>) -> (r: Option<u32>)
    ensures
        r == first_soa_minimum(records_v(rs@), 0),
{
    let mut i: usize = 0;
    while i < rs.len()
        invariant
            i <= rs@.len(),
            first_soa_minimum(records_v(rs@), 0) == first_soa_minimum(records_v(rs@), i as int),
        decreases rs@.len() - i,
    {
        let r: &Record = &rs[i];
        assert(records_v(rs@)[i as int] == r@);
        if r.rtype == TYPE_SOA && r.rdata.len() >= 20 {
            return Some(read_be32(r.rdata.as_slice(), r.rdata.len() - 4));
        }
        i += 1;
    }
    None
}

/// The smallest TTL of a list of records that is not empty.
pub fn min_ttl_of(rs: &Vec<Record>) -> (r: u32)
    requires
        rs@.len() > 0,
    ensures
        r == smallest_ttl(records_v(rs@)),
{
    let ghost v = records_v(rs@);
    let mut m: u32 = rs[0].ttl;
    let mut i: usize = 1;
    while i < rs.len()
        invariant
            1 <= i <= rs@.len(),
            v == records_v(rs@),
            m == smallest_ttl(v.subrange(0, i as int)),
        decreases rs@.len() - i,
    {
        proof {
            assert(v.subrange(0, i + 1).drop_last() =~= v.subrange(0, i as int));
        }
        if rs[i].ttl < m {
            m = rs[i].ttl;
        }
        i += 1;
    }
    assert(v.subrange(0, v.len() as int) =~= v);
    m
}

impl TtlLimits {
    /// How long a reply is kept, in seconds; zero for not at all. Positive replies go by
    /// the smallest TTL of their answers, negative ones by the SOA record.
    pub fn compute_ttl(&self, msg: &Message) -> (r: u32)
        ensures
            r == ttl_of(*self, msg@),
    {
        let rcode: u16 = msg.header.rcode;
        assert(msg@.answers.len() == msg.answers@.len());
        if msg.answers.len() == 0 && (rcode == RCODE_NXDOMAIN || rcode == RCODE_NOERROR) {
            let v: u32 = match find_soa_minimum(&msg.authorities) {
                Some(v) => v,
                None => self.negative_ttl,
            };
            cap_ttl(v, self.min_ttl, self.max_negative_ttl)
        } else if rcode == RCODE_NOERROR {
            clamp_ttl(min_ttl_of(&msg.answers), self.min_ttl, self.max_ttl)
        } else {
            0
        }
    }
}

impl TtlLimits {
    /// Until when a reply is kept; none where it is not kept at all.
    pub fn keep_until(&self, msg: &Message, now: u64) -> (r: Option<u64>)
        ensures
            r == (if ttl_of(*self, msg@) == 0 {
                None
            } else {
                Some(expiry(now, ttl_of(*self, msg@)))
            }),
    {
        let ttl: u32 = self.compute_ttl(msg);
        if ttl == 0 {
            None
        } else {
            Some(now.saturating_add(ttl as u64 * 1000))
        }
    }
}

/// A negative reply is never kept longer than its own bound, whatever its SOA record and
/// the lower bound on all replies say.
pub proof fn law_negative_replies_are_bounded(l: TtlLimits, m: MessageV)
    requires
        m.answers.len() == 0,
    ensures
        ttl_of(l, m) <= l.max_negative_ttl,
{
}

/// A reply that is neither an answer nor a denial is never kept.
pub proof fn law_failures_are_not_kept(l: TtlLimits, m: MessageV)
    requires
        m.header.rcode != RCODE_NOERROR,
        m.header.rcode != RCODE_NXDOMAIN,
    ensures
        ttl_of(l, m) == 0,
{
}

/// A positive reply is kept no longer than each of its answers allows, unless the lower
/// bound on all replies is higher.
pub proof fn law_positive_replies_respect_every_ttl(l: TtlLimits, m: MessageV, i: int)
    requires
        0 <= i < m.answers.len(),
        m.header.rcode == RCODE_NOERROR,
    ensures
        ttl_of(l, m) <= m.answers[i].ttl || ttl_of(l, m) == l.min_ttl,
        l.min_ttl <= ttl_of(l, m),
        ttl_of(l, m) <= l.max_ttl || ttl_of(l, m) == l.min_ttl,
{
    lemma_smallest_ttl(m.answers, i);
}

proof fn lemma_smallest_ttl(rs: Seq<RecordV>, i: int)
    requires
        0 <= i < rs.len(),
    ensures
        smallest_ttl(rs) <= rs[i].ttl,
    decreases rs.len(),
{
    if rs.len() > 1 {
        if i < rs.len() - 1 {
            lemma_smallest_ttl(rs.drop_last(), i);
        }
    }
}

/// The cache of replies. Times are in milliseconds.
pub struct DnsCache {
    pub store: moka::sync::Cache<Vec<Vec<u8>>, (Vec<u8>, u64)>,
    pub limits: TtlLimits,
}

/// One line of a listing of the cache.
#[derive(Debug)]
pub struct CacheDumpEntry {
    pub name: String,
    pub rtype: String,
    pub class: String,
    pub ttl_remaining_secs: u64,
    pub size_bytes: usize,
}

/// An entry of the cache as listed: the parts of its key, the time it has left and its
/// size.
#[derive(Debug)]
pub struct CacheLine {
    pub key: Vec<Vec<u8>>,
    pub ttl_remaining_secs: u64,
    pub size_bytes: usize,
}

/// The time at which a reply kept at `now` expires.
pub open spec fn expiry(now: u64, ttl: u32) -> u64 {
    if now + ttl * 1000 <= u64::MAX {
        (now + ttl * 1000) as u64
    } else {
        u64::MAX
    }
}

/// What a lookup came to.
#[derive(Debug)]
pub enum Found {
    Nothing,
    Expired,
    Live(Vec<u8>),
}

/// What a lookup came to: an entry counts until its time is reached.
pub fn fresh(found: Option<(Vec<u8>, u64)>, now: u64) -> (r: Found)
    ensures
        match found {
            None => r is Nothing,
            Some((bytes, expires)) => if now < expires {
                r == Found::Live(bytes)
            } else {
                r is Expired
            },
        },
{
    match found {
        None => Found::Nothing,
        Some((bytes, expires)) => if now < expires {
            Found::Live(bytes)
        } else {
            Found::Expired
        },
    }
}

/// The whole seconds until a time is reached.
pub open spec fn seconds_left(expires: u64, now: u64) -> int {
    if expires <= now {
        0
    } else {
        (expires - now) / 1000
    }
}

/// Whether lines tell of every entry that has at least a second left, each once.
pub open spec fn is_dump(
    lines: Seq<CacheLine>,
    m: Map<Seq<Seq<u8>>, (Seq<u8>, u64)>,
    now: u64,
) -> bool {
    &&& forall|i: int| 0 <= i < lines.len() ==> describes(#[trigger] lines[i], m, now)
    &&& forall|i: int, j: int|
        0 <= i < j < lines.len() ==> byte_strings((#[trigger] lines[i]).key@) != byte_strings(
            (#[trigger] lines[j]).key@,
        )
    &&& forall|k: Seq<Seq<u8>>| #[trigger]
        m.contains_key(k) && seconds_left(m[k].1, now) > 0 ==> exists|i: int|
            0 <= i < lines.len() && byte_strings((#[trigger] lines[i]).key@) == k
}

/// The line tells of an entry that has at least a second left.
pub open spec fn describes(
    line: CacheLine,
    m: Map<Seq<Seq<u8>>, (Seq<u8>, u64)>,
    now: u64,
) -> bool {
    let k = byte_strings(line.key@);
    &&& m.contains_key(k)
    &&& line.size_bytes == m[k].0.len()
    &&& line.ttl_remaining_secs == (m[k].1 - now) / 1000
    &&& line.ttl_remaining_secs > 0
}

impl DnsCache {
    /// The entries in the cache, expired ones with them.
    pub open spec fn entries(&self) -> Map<Seq<Seq<u8>>, (Seq<u8>, u64)> {
        entries(self.store)
    }

    /// The number of entries for which the cache was made.
    pub open spec fn capacity(&self) -> u64 {
        capacity(self.store)
    }

    /// An empty cache.
    pub fn new(
        max_entries: u64,
        min_ttl: u32,
        max_ttl: u32,
        negative_ttl: u32,
        max_negative_ttl: u32,
    ) -> (r: DnsCache)
        ensures
            r.entries() == no_entries(),
            r.capacity() == max_entries,
            r.limits == (TtlLimits { min_ttl, max_ttl, negative_ttl, max_negative_ttl }),
    {
        DnsCache {
            store: store_new(max_entries),
            limits: TtlLimits { min_ttl, max_ttl, negative_ttl, max_negative_ttl },
        }
    }

    /// The reply kept under the key, unless it has expired.
    pub fn get(&mut self, key: &CacheKey, now: u64) -> (r: Option<Vec<u8>>)
        ensures
            final(self).limits == old(self).limits,
            final(self).capacity() == old(self).capacity(),
            final(self).entries().submap_of(old(self).entries()),
            ({
                let k = key_parts(key.name@, key.rtype, key.class);
                let m = old(self).entries();
                &&& r is Some <==> m.contains_key(k) && now < m[k].1
                &&& r is Some ==> r->0@ == m[k].0
            }),
    {
        let k = key.parts();
        let found = store_get(&mut self.store, &k);
        match fresh(found, now) {
            Found::Nothing => None,
            Found::Live(bytes) => Some(bytes),
            Found::Expired => {
                let ghost mid = entries(self.store);
                store_remove(&mut self.store, &k);
                proof {
                    lemma_shrinks(
                        entries(self.store),
                        mid,
                        old(self).entries(),
                        byte_strings(k@),
                    );
                }
                None
            },
        }
    }

    /// Keep a reply for as long as it may be kept; later calls may drop it earlier, since the
    /// cache is bounded. A reply that may not be kept leaves the cache as it is.
    pub fn put(&mut self, key: &CacheKey, msg: &Message, bytes: Vec<u8>, now: u64)
        ensures
            final(self).limits == old(self).limits,
            final(self).capacity() == old(self).capacity(),
            ttl_of(old(self).limits, msg@) > 0 && old(self).capacity() > 0 ==> holds(
                final(self).entries(),
                key_parts(key.name@, key.rtype, key.class),
                bytes@,
                expiry(now, ttl_of(old(self).limits, msg@)),
            ),
            ttl_of(old(self).limits, msg@) == 0 ==> final(self).entries() == old(
                self,
            ).entries(),
            ttl_of(old(self).limits, msg@) > 0 ==> final(self).entries().submap_of(
                old(self).entries().insert(
                    key_parts(key.name@, key.rtype, key.class),
                    (bytes@, expiry(now, ttl_of(old(self).limits, msg@))),
                ),
            ),
    {
        if let Some(expires) = self.limits.keep_until(msg, now) {
            store_insert(&mut self.store, key.parts(), bytes, expires);
        }
    }

    /// Drop every entry.
    pub fn flush(&mut self)
        ensures
            final(self).limits == old(self).limits,
            final(self).capacity() == old(self).capacity(),
            final(self).entries() == no_entries(),
    {
        store_clear(&mut self.store);
    }

    /// The number of entries, expired ones with them.
    pub fn entry_count(&self) -> (r: u64)
        ensures
            self.entries().dom().finite(),
            r == self.entries().dom().len(),
    {
        let all = store_list(&self.store);
        proof {
            let keys = Seq::new(all@.len(), |i: int| byte_strings(all@[i].0@));
            let dom = self.entries().dom();
            assert(keys.no_duplicates());
            keys.unique_seq_to_set();
            vstd::seq_lib::seq_to_set_is_finite(keys);
            assert forall|k: Seq<Seq<u8>>| keys.to_set().contains(k) == dom.contains(k) by {
                if dom.contains(k) {
                    assert(self.entries().contains_key(k));
                    let i = choose|i: int|
                        0 <= i < all@.len() && byte_strings((#[trigger] all@[i]).0@) == k;
                    assert(keys[i] == k);
                }
                if keys.to_set().contains(k) {
                    let i = choose|i: int| 0 <= i < keys.len() && keys[i] == k;
                    assert(holds(
                        self.entries(),
                        byte_strings(all@[i].0@),
                        all@[i].1@,
                        all@[i].2,
                    ));
                }
            }
            assert(keys.to_set() =~= dom);
        }
        all.len() as u64
    }

    /// A listing of the entries that have at least a second left.
    pub fn dump(&self, now: u64) -> (r: Vec<CacheLine>)
        ensures
            is_dump(r@, self.entries(), now),
    {
        let all = store_list(&self.store);
        let ghost m = self.entries();
        let mut out: Vec<CacheLine> = Vec::new();
        let ghost mut from: Seq<int> = Seq::empty();
        let mut i: usize = 0;
        while i < all.len()
            invariant
                i <= all@.len(),
                m == self.entries(),
                lists(all@, m),
                from.len() == out@.len(),
                forall|j: int|
                    0 <= j < out@.len() ==> describes(#[trigger] out@[j], m, now),
                forall|j: int|
                    0 <= j < out@.len() ==> 0 <= #[trigger] from[j] < i && byte_strings(
                        out@[j].key@,
                    ) == byte_strings(all@[from[j]].0@),
                forall|a: int, b: int| 0 <= a < b < from.len() ==> from[a] < from[b],
                forall|j: int|
                    0 <= j < i && seconds_left((#[trigger] all@[j]).2, now) > 0 ==> exists|q: int|
                        0 <= q < from.len() && #[trigger] from[q] == j,
            decreases all@.len() - i,
        {
            let e: &(Vec<Vec<u8>>, Vec<u8>, u64) = &all[i];
            let ghost was = from;
            assert(holds(m, byte_strings(all@[i as int].0@), all@[i as int].1@, all@[i as int].2));
            let left: u64 = e.2.saturating_sub(now) / 1000;
            if left > 0 {
                let mut key: Vec<Vec<u8>> = Vec::new();
                let mut j: usize = 0;
                while j < e.0.len()
                    invariant
                        j <= e.0@.len(),
                        key@.len() == j,
                        forall|q: int| 0 <= q < j ==> (#[trigger] key@[q])@ == e.0@[q]@,
                    decreases e.0@.len() - j,
                {
                    key.push(copy_bytes(e.0[j].as_slice()));
                    j += 1;
                }
                assert(byte_strings(key@) =~= byte_strings(e.0@));
                let line = CacheLine { key, ttl_remaining_secs: left, size_bytes: e.1.len() };
                assert(describes(line, m, now));
                out.push(line);
                proof {
                    from = from.push(i as int);
                    assert(from[was.len() as int] == i);
                }
            }
            proof {
                assert forall|j: int|
                    0 <= j < i + 1 && seconds_left((#[trigger] all@[j]).2, now)
                        > 0 implies exists|q: int| 0 <= q < from.len() && #[trigger] from[q] == j by {
                    if j < i {
                        let q = choose|q: int| 0 <= q < was.len() && #[trigger] was[q] == j;
                        assert(from[q] == j);
                    }
                }
            }
            i += 1;
        }
        proof {
            assert forall|a: int, b: int| 0 <= a < b < out@.len() implies byte_strings(
                (#[trigger] out@[a]).key@,
            ) != byte_strings((#[trigger] out@[b]).key@) by {
                assert(from[a] < from[b]);
                assert(byte_strings(all@[from[a]].0@) != byte_strings(all@[from[b]].0@));
            }
            assert forall|k: Seq<Seq<u8>>| #[trigger]
                m.contains_key(k) && seconds_left(m[k].1, now) > 0 implies exists|q: int|
                0 <= q < out@.len() && byte_strings((#[trigger] out@[q]).key@) == k by {
                let j = choose|j: int|
                    0 <= j < all@.len() && byte_strings((#[trigger] all@[j]).0@) == k;
                assert(holds(m, byte_strings(all@[j].0@), all@[j].1@, all@[j].2));
                assert(seconds_left(all@[j].2, now) > 0);
                let q = choose|q: int| 0 <= q < from.len() && #[trigger] from[q] == j;
                assert(byte_strings(out@[q].key@) == k);
            }
        }
        out
    }
}

/// A read gives back what was written: of a cache in which a reply was put under a key, the
/// reply itself is found until its time is reached, and nothing from then on; and whatever
/// later calls have dropped, nothing else is ever found under the key.
pub proof fn law_hit_is_what_was_put(
    before: Map<Seq<Seq<u8>>, (Seq<u8>, u64)>,
    written: Map<Seq<Seq<u8>>, (Seq<u8>, u64)>,
    later: Map<Seq<Seq<u8>>, (Seq<u8>, u64)>,
    key: Seq<Seq<u8>>,
    bytes: Seq<u8>,
    expires: u64,
    now: u64,
)
    requires
        written.submap_of(before.insert(key, (bytes, expires))),
        holds(written, key, bytes, expires),
        later.submap_of(written),
    ensures
        (written.contains_key(key) && now < written[key].1) <==> now < expires,
        written[key].0 == bytes,
        later.contains_key(key) ==> later[key] == (bytes, expires),
{
    if later.contains_key(key) {
        assert(later.dom().contains(key));
    }
}

proof fn lemma_shrinks(
    last: Map<Seq<Seq<u8>>, (Seq<u8>, u64)>,
    mid: Map<Seq<Seq<u8>>, (Seq<u8>, u64)>,
    first: Map<Seq<Seq<u8>>, (Seq<u8>, u64)>,
    key: Seq<Seq<u8>>,
)
    requires
        last.submap_of(mid.remove(key)),
        mid.submap_of(first),
    ensures
        last.submap_of(first),
{
    let cut = mid.remove(key);
    assert forall|x: Seq<Seq<u8>>| #[trigger] last.dom().contains(x) implies #[trigger] first.dom().contains(
        x,
    ) && last[x] == first[x] by {
        let a = cut.dom().contains(x);
        let b = mid.dom().contains(x);
        assert(a);
        assert(b);
        assert(first.dom().contains(x));
        assert(last[x] == cut[x]);
        assert(x != key);
    }
}

/// Rewrite the id of a message in wire form.
pub fn rewrite_txid(bytes: &mut Vec<u8>, new_id: u16)
    requires
        old(bytes)@.len() >= 2,
    ensures
        final(bytes)@ == be16_bytes(new_id) + old(bytes)@.subrange(
            2,
            old(bytes)@.len() as int,
        ),
{
    bytes.set(0, (new_id / 256) as u8);
    bytes.set(1, (new_id % 256) as u8);
    assert(bytes@ =~= be16_bytes(new_id) + old(bytes)@.subrange(2, old(bytes)@.len() as int));
}

/// The lifetime of a denial comes from the first SOA record of the authorities.
pub proof fn law_first_soa_counts(rs: Seq<RecordV>, from: int)
    requires
        0 <= from <= rs.len(),
    ensures
        match first_soa_minimum(rs, from) {
            Some(v) => exists|i: int|
                {
                    &&& from <= i < rs.len()
                    &&& (#[trigger] rs[i]).rtype == TYPE_SOA && (#[trigger] rs[i]).rdata.len() >= 20
                    &&& v == soa_minimum(rs[i])->0
                    &&& forall|j: int| from <= j < i ==> !((#[trigger] rs[j]).rtype == TYPE_SOA && (#[trigger] rs[j]).rdata.len() >= 20)
                },
            None => forall|j: int| from <= j < rs.len() ==> !((#[trigger] rs[j]).rtype == TYPE_SOA && (#[trigger] rs[j]).rdata.len() >= 20),
        },
    decreases rs.len() - from,
{
    if from < rs.len() {
        if rs[from].rtype == TYPE_SOA && rs[from].rdata.len() >= 20 {
            assert(first_soa_minimum(rs, from) == Some(soa_minimum(rs[from])->0));
        } else {
            law_first_soa_counts(rs, from + 1);
        }
    }
}


/// The MINIMUM field of a SOA record is its last number, behind the two names and four other
/// numbers.
pub proof fn law_soa_minimum_comes_last(r: RecordV, front: Seq<u8>, n: u32)
    requires
        r.rtype == TYPE_SOA,
        front.len() >= 16,
        r.rdata == front + be32_bytes(n),
    ensures
        soa_minimum(r) == Some(n),
{
    let b = be32_bytes(n);
    let at = front.len() as int;
    assert(r.rdata[at] == b[0] && r.rdata[at + 1] == b[1] && r.rdata[at + 2] == b[2] && r.rdata[at
        + 3] == b[3]);
}

/// A positive reply is kept for the shortest TTL of its answers, held between the bounds.
pub proof fn law_positive_lifetime(l: TtlLimits, m: MessageV)
    requires
        m.header.rcode == RCODE_NOERROR,
        m.answers.len() > 0,
        l.min_ttl <= l.max_ttl,
    ensures
        exists|i: int|
            {
                &&& 0 <= i < m.answers.len()
                &&& forall|j: int|
                    0 <= j < m.answers.len() ==> m.answers[i].ttl <= (#[trigger] m.answers[j]).ttl
                &&& ttl_of(l, m) == held((#[trigger] m.answers[i]).ttl, l.min_ttl, l.max_ttl)
            },
{
    lemma_smallest_is_one(m.answers);
    let i = choose|i: int|
        0 <= i < m.answers.len() && smallest_ttl(m.answers) == (#[trigger] m.answers[i]).ttl;
    assert forall|j: int| 0 <= j < m.answers.len() implies m.answers[i].ttl <= (
    #[trigger] m.answers[j]).ttl by {
        lemma_smallest_ttl(m.answers, j);
    }
    assert(ttl_of(l, m) == held(m.answers[i].ttl, l.min_ttl, l.max_ttl));
}

/// A value held between two bounds.
pub open spec fn held(v: u32, low: u32, high: u32) -> u32 {
    if v < low {
        low
    } else if v > high {
        high
    } else {
        v
    }
}

proof fn lemma_smallest_is_one(rs: Seq<RecordV>)
    requires
        rs.len() > 0,
    ensures
        exists|i: int| 0 <= i < rs.len() && smallest_ttl(rs) == (#[trigger] rs[i]).ttl,
    decreases rs.len(),
{
    if rs.len() == 1 {
        assert(smallest_ttl(rs) == rs[0].ttl);
    } else {
        let rest = rs.drop_last();
        lemma_smallest_is_one(rest);
        let i = choose|i: int| 0 <= i < rest.len() && smallest_ttl(rest) == (#[trigger] rest[i]).ttl;
        assert(rs[i] == rest[i]);
        assert(rs[rs.len() - 1] == rs.last());
        if smallest_ttl(rest) <= rs.last().ttl {
            assert(smallest_ttl(rs) == rs[i].ttl);
        } else {
            assert(smallest_ttl(rs) == rs[rs.len() - 1].ttl);
        }
    }
}

/// The shortest TTL of a list is one of the list, and no other is shorter.
pub proof fn law_smallest_ttl_is_one_of_them(rs: Seq<RecordV>)
    requires
        rs.len() > 0,
    ensures
        exists|i: int| 0 <= i < rs.len() && smallest_ttl(rs) == (#[trigger] rs[i]).ttl,
        forall|j: int| 0 <= j < rs.len() ==> smallest_ttl(rs) <= (#[trigger] rs[j]).ttl,
{
    lemma_smallest_is_one(rs);
    assert forall|j: int| 0 <= j < rs.len() implies smallest_ttl(rs) <= (#[trigger] rs[j]).ttl by {
        lemma_smallest_ttl(rs, j);
    }
}

/// A denial is kept for what the first SOA record of its authorities says, and without one
/// for the configured time, held between the bounds for denials.
pub proof fn law_negative_lifetime(l: TtlLimits, m: MessageV)
    requires
        m.header.rcode == RCODE_NOERROR || m.header.rcode == RCODE_NXDOMAIN,
        m.answers.len() == 0,
        l.min_ttl <= l.max_negative_ttl,
    ensures
        (forall|j: int|
            0 <= j < m.authorities.len() ==> soa_minimum(#[trigger] m.authorities[j]) is None)
            ==> ttl_of(l, m) == held(l.negative_ttl, l.min_ttl, l.max_negative_ttl),
        forall|i: int|
            0 <= i < m.authorities.len() && soa_minimum(#[trigger] m.authorities[i]) is Some && (
            forall|j: int| 0 <= j < i ==> soa_minimum(#[trigger] m.authorities[j]) is None)
                ==> ttl_of(l, m) == held(
                soa_minimum(m.authorities[i])->0,
                l.min_ttl,
                l.max_negative_ttl,
            ),
{
    law_first_soa_counts(m.authorities, 0);
    let rs = m.authorities;
    assert forall|i: int|
        0 <= i < rs.len() && soa_minimum(#[trigger] rs[i]) is Some && (forall|j: int|
            0 <= j < i ==> soa_minimum(#[trigger] rs[j]) is None) implies first_soa_minimum(rs, 0)
        == soa_minimum(rs[i]) by {
        assert(rs[i].rtype == TYPE_SOA && rs[i].rdata.len() >= 20);
        let k = choose|k: int|
            {
                &&& 0 <= k < rs.len()
                &&& (#[trigger] rs[k]).rtype == TYPE_SOA && rs[k].rdata.len() >= 20
                &&& first_soa_minimum(rs, 0)->0 == soa_minimum(rs[k])->0
                &&& forall|j: int|
                    0 <= j < k ==> !((#[trigger] rs[j]).rtype == TYPE_SOA && rs[j].rdata.len()
                        >= 20)
            };
        assert(soa_minimum(rs[k]) is Some);
        assert(k == i);
    }
    if forall|j: int| 0 <= j < rs.len() ==> soa_minimum(#[trigger] rs[j]) is None {
        if first_soa_minimum(rs, 0) is Some {
            let k = choose|k: int|
                0 <= k < rs.len() && (#[trigger] rs[k]).rtype == TYPE_SOA && rs[k].rdata.len() >= 20;
            assert(soa_minimum(rs[k]) is Some);
        }
    }
}

/// A reply kept for some seconds expires that many thousand milliseconds from now, or never
/// where the clock ends before.
pub proof fn law_expiry_is_in_milliseconds(now: u64, ttl: u32)
    ensures
        now + 1000 * ttl <= u64::MAX ==> expiry(now, ttl) - now == 1000 * ttl,
        now + 1000 * ttl > u64::MAX ==> expiry(now, ttl) == u64::MAX,
{
}

/// Replies are found by name in any case, by type and by class, and by nothing less: two keys
/// are the same exactly where the names are the same and type and class are equal.
pub proof fn law_replies_are_found_in_any_case(
    a: Labels,
    t: u16,
    c: u16,
    a2: Labels,
    t2: u16,
    c2: u16,
)
    ensures
        key_parts(lower(a), t, c) == key_parts(lower(a2), t2, c2) <==> crate::name::same_name(a, a2)
            && t == t2 && c == c2,
{
    if key_parts(lower(a), t, c) == key_parts(lower(a2), t2, c2) {
        law_cache_keys_are_distinct(lower(a), t, c, lower(a2), t2, c2);
    }
}

/// A listing of the cache shows every reply that has a second or more left, with the seconds
/// and its size, and nothing else.
pub proof fn law_listing_shows_what_is_kept(
    lines: Seq<CacheLine>,
    m: Map<Seq<Seq<u8>>, (Seq<u8>, u64)>,
    now: u64,
    k: Seq<Seq<u8>>,
)
    requires
        is_dump(lines, m, now),
    ensures
        m.contains_key(k) && m[k].1 >= now + 1000 ==> exists|i: int|
            0 <= i < lines.len() && byte_strings((#[trigger] lines[i]).key@) == k
                && lines[i].ttl_remaining_secs == (m[k].1 - now) / 1000 && lines[i].size_bytes
                == m[k].0.len(),
        forall|i: int|
            0 <= i < lines.len() ==> m.contains_key(byte_strings((#[trigger] lines[i]).key@))
                && m[byte_strings(lines[i].key@)].1 >= now + 1000,
{
    if m.contains_key(k) && m[k].1 >= now + 1000 {
        assert(seconds_left(m[k].1, now) > 0);
        let i = choose|i: int| 0 <= i < lines.len() && byte_strings((#[trigger] lines[i]).key@) == k;
        assert(describes(lines[i], m, now));
    }
    assert forall|i: int| 0 <= i < lines.len() implies m.contains_key(
        byte_strings((#[trigger] lines[i]).key@),
    ) && m[byte_strings(lines[i].key@)].1 >= now + 1000 by {
        assert(describes(lines[i], m, now));
    }
}

} // verus!
