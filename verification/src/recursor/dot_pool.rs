//! Idle TLS connections to forwarders' servers, kept for reuse.

use crate::config::{text_v, Via};
use crate::net::SocketAddr;
use crate::text::str_eq;
use vstd::prelude::*;

verus! {

/// How long a connection may lie idle, in milliseconds.
pub const IDLE_CAP_MS: u64 = 30_000;

/// How long a connection may live, in milliseconds.
pub const MAX_LIFETIME_MS: u64 = 300_000;

/// How many idle connections of one kind are kept.
pub const MAX_PER_KEY: usize = 4;

/// What has to agree for a connection to be reused.
#[derive(Debug)]
pub struct DotConnKey {
    pub resolver: SocketAddr,
    pub tls_name: String,
    pub via: Via,
    pub tor_socks: Option<SocketAddr>,
    pub iso_user: Option<String>,
}

/// The value of a [`DotConnKey`].
#[verifier::ext_equal]
pub ghost struct KeyV {
    pub resolver: SocketAddr,
    pub tls_name: Seq<char>,
    pub via: Via,
    pub tor_socks: Option<SocketAddr>,
    pub iso_user: Option<Seq<char>>,
}

impl View for DotConnKey {
    type V = KeyV;

    open spec fn view(&self) -> KeyV {
        KeyV {
            resolver: self.resolver,
            tls_name: self.tls_name@,
            via: self.via,
            tor_socks: self.tor_socks,
            iso_user: text_v(self.iso_user),
        }
    }
}

impl Clone for DotConnKey {
    fn clone(&self) -> (r: DotConnKey)
        ensures
            r@ == self@,
    {
        DotConnKey {
            resolver: self.resolver,
            tls_name: self.tls_name.clone(),
            via: self.via,
            tor_socks: self.tor_socks,
            iso_user: crate::config::clone_text(&self.iso_user),
        }
    }
}

impl DotConnKey {
    /// Whether the two keys are the same.
    pub fn same(&self, other: &DotConnKey) -> (r: bool)
        ensures
            r == (self@ == other@),
    {
        let users: bool = match (&self.iso_user, &other.iso_user) {
            (Some(a), Some(b)) => str_eq(a.as_str(), b.as_str()),
            (None, None) => true,
            _ => false,
        };
        let socks: bool = match (self.tor_socks, other.tor_socks) {
            (Some(a), Some(b)) => a == b,
            (None, None) => true,
            _ => false,
        };
        let names: bool = str_eq(self.tls_name.as_str(), other.tls_name.as_str());
        self.resolver == other.resolver && self.via == other.via && names && socks && users
    }
}

/// A connection with its age. Times are in milliseconds.
#[derive(Debug)]
pub struct DotConn<S> {
    pub stream: S,
    pub created_at: u64,
    pub last_used: u64,
}

/// Time passed since `then`; none where that lies ahead.
pub open spec fn since(now: u64, then: u64) -> int {
    if now >= then {
        now - then
    } else {
        0
    }
}

/// The connection has been idle or alive for too long.
pub open spec fn stale<S>(c: DotConn<S>, now: u64) -> bool {
    since(now, c.last_used) >= IDLE_CAP_MS || since(now, c.created_at) >= MAX_LIFETIME_MS
}

impl<S> DotConn<S> {
    /// A connection made at `now`.
    pub fn new(stream: S, now: u64) -> (r: DotConn<S>)
        ensures
            r.stream == stream,
            r.created_at == now,
            r.last_used == now,
    {
        DotConn { stream, created_at: now, last_used: now }
    }

    /// The stream itself.
    pub fn stream_mut(&mut self) -> (r: &mut S)
        ensures
            *r == old(self).stream,
            *final(self) == (DotConn { stream: *final(r), ..*old(self) }),
    {
        &mut self.stream
    }

    /// Whether the connection has been idle or alive for too long.
    pub fn is_stale(&self, now: u64) -> (r: bool)
        ensures
            r == stale(*self, now),
    {
        now.saturating_sub(self.last_used) >= IDLE_CAP_MS || now.saturating_sub(self.created_at)
            >= MAX_LIFETIME_MS
    }
}

/// The idle connections of one kind, the latest last.
#[derive(Debug)]
pub struct Bucket<S> {
    pub key: DotConnKey,
    pub conns: Vec<DotConn<S>>,
}

/// The idle connections.
#[derive(Debug)]
pub struct DotPool<S> {
    pub buckets: Vec<Bucket<S>>,
}

/// The first bucket of a kind, from `i` on.
pub open spec fn bucket_at<S>(s: Seq<Bucket<S>>, key: KeyV, i: int) -> Option<int>
    decreases s.len() - i,
{
    if i < 0 || i >= s.len() {
        None
    } else if s[i].key@ == key {
        Some(i)
    } else {
        bucket_at(s, key, i + 1)
    }
}

/// The idle connections of a kind.
pub open spec fn idle_in<S>(s: Seq<Bucket<S>>, key: KeyV) -> Seq<DotConn<S>> {
    match bucket_at(s, key, 0) {
        Some(i) => s[i].conns@,
        None => Seq::empty(),
    }
}

/// The connection that is handed out, and what is left: the latest that is not stale;
/// stale ones on the way are dropped.
pub open spec fn taken<S>(s: Seq<DotConn<S>>, now: u64) -> (Option<DotConn<S>>, Seq<DotConn<S>>)
    decreases s.len(),
{
    if s.len() == 0 {
        (None, s)
    } else if !stale(s.last(), now) {
        (Some(s.last()), s.drop_last())
    } else {
        taken(s.drop_last(), now)
    }
}

/// The connections that are not stale.
pub open spec fn fresh<S>(s: Seq<DotConn<S>>, now: u64) -> Seq<DotConn<S>>
    decreases s.len(),
{
    if s.len() == 0 {
        s
    } else if stale(s.last(), now) {
        fresh(s.drop_last(), now)
    } else {
        fresh(s.drop_last(), now).push(s.last())
    }
}

proof fn lemma_bucket_same_keys<S>(a: Seq<Bucket<S>>, b: Seq<Bucket<S>>, key: KeyV, i: int)
    requires
        a.len() == b.len(),
        0 <= i <= a.len(),
        forall|j: int| 0 <= j < a.len() ==> (#[trigger] a[j]).key@ == b[j].key@,
    ensures
        bucket_at(a, key, i) == bucket_at(b, key, i),
    decreases a.len() - i,
{
    if i < a.len() {
        assert(a[i].key@ == b[i].key@);
        lemma_bucket_same_keys(a, b, key, i + 1);
    }
}

proof fn lemma_bucket_found<S>(s: Seq<Bucket<S>>, key: KeyV, i: int)
    requires
        0 <= i,
    ensures
        match bucket_at(s, key, i) {
            Some(p) => i <= p < s.len() && s[p].key@ == key,
            None => true,
        },
    decreases s.len() - i,
{
    if i < s.len() {
        lemma_bucket_found(s, key, i + 1);
    }
}

proof fn lemma_bucket_push<S>(s: Seq<Bucket<S>>, e: Bucket<S>, key: KeyV, i: int)
    requires
        0 <= i <= s.len(),
    ensures
        bucket_at(s.push(e), key, i) == (match bucket_at(s, key, i) {
            Some(p) => Some(p),
            None => if e.key@ == key {
                Some(s.len() as int)
            } else {
                None
            },
        }),
    decreases s.len() - i,
{
    if i < s.len() {
        assert(s.push(e)[i] == s[i]);
        lemma_bucket_push(s, e, key, i + 1);
    } else {
        assert(s.push(e)[i] == e);
        assert(bucket_at(s.push(e), key, i + 1) is None);
    }
}

impl<S> DotPool<S> {
    /// The idle connections of a kind.
    pub open spec fn idle(&self, key: KeyV) -> Seq<DotConn<S>> {
        idle_in(self.buckets@, key)
    }

    /// No kind has more idle connections than are kept.
    pub open spec fn wf(&self) -> bool {
        forall|k: KeyV| (#[trigger] self.idle(k)).len() <= MAX_PER_KEY
    }

    /// An empty pool.
    pub fn new() -> (r: DotPool<S>)
        ensures
            r.wf(),
            forall|k: KeyV| (#[trigger] r.idle(k)).len() == 0,
    {
        DotPool { buckets: Vec::new() }
    }

    fn find(&self, key: &DotConnKey) -> (r: Option<usize>)
        ensures
            bucket_at(self.buckets@, key@, 0) == (match r {
                Some(i) => Some(i as int),
                None => None,
            }),
            r is Some ==> r->0 < self.buckets@.len() && self.buckets@[r->0 as int].key@ == key@,
    {
        let mut i: usize = 0;
        while i < self.buckets.len()
            invariant
                i <= self.buckets@.len(),
                bucket_at(self.buckets@, key@, 0) == bucket_at(self.buckets@, key@, i as int),
            decreases self.buckets@.len() - i,
        {
            if self.buckets[i].key.same(key) {
                return Some(i);
            }
            i += 1;
        }
        None
    }

    /// Put other connections into the bucket at `p`.
    fn replace(&mut self, p: usize, conns: Vec<DotConn<S>>)
        requires
            p < old(self).buckets@.len(),
            bucket_at(old(self).buckets@, old(self).buckets@[p as int].key@, 0) == Some(p as int),
        ensures
            forall|k: KeyV|
                #[trigger] final(self).idle(k) == (if k == old(self).buckets@[p as int].key@ {
                    conns@
                } else {
                    old(self).idle(k)
                }),
    {
        let ghost before = self.buckets@;
        let key = self.buckets[p].key.clone();
        let b = Bucket { key, conns };
        self.buckets.set(p, b);
        let ghost after = self.buckets@;
        proof {
            assert(after =~= before.update(p as int, b));
            assert forall|k: KeyV| #[trigger] self.idle(k) == (if k == before[p as int].key@ {
                conns@
            } else {
                idle_in(before, k)
            }) by {
                lemma_bucket_same_keys(after, before, k, 0);
                lemma_bucket_found(before, k, 0);
            }
        }
    }

    /// Take the latest idle connection of a kind that is not stale. Stale ones on the way
    /// are dropped; other kinds are not touched.
    pub fn take(&mut self, key: &DotConnKey, now: u64) -> (r: Option<DotConn<S>>)
        requires
            old(self).wf(),
        ensures
            final(self).wf(),
            r == taken(old(self).idle(key@), now).0,
            forall|k: KeyV|
                #[trigger] final(self).idle(k) == (if k == key@ {
                    taken(old(self).idle(k), now).1
                } else {
                    old(self).idle(k)
                }),
    {
        let p: usize = match self.find(key) {
            Some(p) => p,
            None => {
                return None;
            },
        };
        let ghost start = self.buckets@[p as int].conns@;
        assert(old(self).idle(key@) == start);
        let mut conns: Vec<DotConn<S>> = Vec::new();
        let mut b = self.buckets.remove(p);
        self.buckets.insert(p, Bucket { key: b.key.clone(), conns });
        let ghost mid = self.buckets@;
        let mut found: Option<DotConn<S>> = None;
        let mut done: bool = false;
        while !done
            invariant
                !done ==> found is None && taken(start, now) == taken(b.conns@, now),
                done ==> taken(start, now) == (found, b.conns@),
                b.conns@.len() <= start.len(),
            decreases b.conns@.len(),
                if done {
                    0int
                } else {
                    1int
                },
        {
            let ghost had = b.conns@;
            match b.conns.pop() {
                None => {
                    done = true;
                    assert(b.conns@ =~= had);
                },
                Some(c) => {
                    if !c.is_stale(now) {
                        found = Some(c);
                        done = true;
                        assert(b.conns@ =~= had.drop_last());
                    } else {
                        assert(b.conns@ =~= had.drop_last());
                    }
                },
            }
        }
        let ghost left = b.conns@;
        proof {
            lemma_bucket_same_keys(mid, old(self).buckets@, key@, 0);
        }
        self.replace(p, b.conns);
        proof {
            assert forall|k: KeyV| #[trigger] self.idle(k) == (if k == key@ {
                taken(old(self).idle(k), now).1
            } else {
                old(self).idle(k)
            }) by {
                lemma_bucket_same_keys(mid, old(self).buckets@, k, 0);
                lemma_bucket_found(old(self).buckets@, k, 0);
                if k != key@ {
                    assert(idle_in(mid, k) == idle_in(old(self).buckets@, k));
                }
            }
            assert forall|k: KeyV| (#[trigger] self.idle(k)).len() <= MAX_PER_KEY by {
                assert(old(self).idle(k).len() <= MAX_PER_KEY);
            }
        }
        found
    }

    /// Give a connection back for reuse. It counts as used now; one that is too old, or
    /// too many, is dropped.
    pub fn release(&mut self, key: &DotConnKey, conn: DotConn<S>, now: u64)
        requires
            old(self).wf(),
        ensures
            final(self).wf(),
            ({
                let c = DotConn { last_used: now, ..conn };
                let keep = !stale(c, now) && old(self).idle(key@).len() < MAX_PER_KEY;
                forall|k: KeyV|
                    #[trigger] final(self).idle(k) == (if k == key@ && keep {
                        old(self).idle(k).push(c)
                    } else {
                        old(self).idle(k)
                    })
            }),
    {
        let c = DotConn { stream: conn.stream, created_at: conn.created_at, last_used: now };
        if c.is_stale(now) {
            return ;
        }
        match self.find(key) {
            Some(p) => {
                let ghost start = self.buckets@;
                if self.buckets[p].conns.len() >= MAX_PER_KEY {
                    return ;
                }
                let mut b = self.buckets.remove(p);
                let empty: Vec<DotConn<S>> = Vec::new();
                self.buckets.insert(p, Bucket { key: b.key.clone(), conns: empty });
                let ghost mid = self.buckets@;
                b.conns.push(c);
                proof {
                    lemma_bucket_same_keys(mid, start, key@, 0);
                }
                self.replace(p, b.conns);
                proof {
                    assert forall|k: KeyV| #[trigger] self.idle(k) == (if k == key@ {
                        old(self).idle(k).push(c)
                    } else {
                        old(self).idle(k)
                    }) by {
                        lemma_bucket_same_keys(mid, start, k, 0);
                        lemma_bucket_found(start, k, 0);
                        if k != key@ {
                            assert(idle_in(mid, k) == idle_in(start, k));
                        }
                    }
                    assert forall|k: KeyV| (#[trigger] self.idle(k)).len() <= MAX_PER_KEY by {
                        assert(old(self).idle(k).len() <= MAX_PER_KEY);
                    }
                }
            },
            None => {
                let ghost start = self.buckets@;
                let mut conns: Vec<DotConn<S>> = Vec::new();
                conns.push(c);
                let b = Bucket { key: key.clone(), conns };
                self.buckets.push(b);
                proof {
                    assert forall|k: KeyV| #[trigger] self.idle(k) == (if k == key@ {
                        old(self).idle(k).push(c)
                    } else {
                        old(self).idle(k)
                    }) by {
                        lemma_bucket_push(start, b, k, 0);
                        lemma_bucket_found(start, k, 0);
                        if k == key@ {
                            assert(self.idle(k) =~= old(self).idle(k).push(c));
                        }
                    }
                    assert forall|k: KeyV| (#[trigger] self.idle(k)).len() <= MAX_PER_KEY by {
                        assert(old(self).idle(k).len() <= MAX_PER_KEY);
                    }
                }
            },
        }
    }
}

/// The connections of a list that are not stale, in order.
fn keep_fresh<S>(conns: Vec<DotConn<S>>, now: u64) -> (r: Vec<DotConn<S>>)
    ensures
        r@ == fresh(conns@, now),
{
    let ghost start = conns@;
    let mut rest = conns;
    let mut out: Vec<DotConn<S>> = Vec::new();
    let ghost mut i: int = 0;
    assert(start.subrange(0, 0) =~= Seq::empty());
    assert(start.subrange(0, start.len() as int) =~= start);
    while rest.len() > 0
        invariant
            0 <= i <= start.len(),
            rest@ == start.subrange(i, start.len() as int),
            out@ == fresh(start.subrange(0, i), now),
        decreases rest@.len(),
    {
        let c = rest.remove(0);
        proof {
            assert(c == start[i]);
            assert(start.subrange(0, i + 1).drop_last() =~= start.subrange(0, i));
            assert(rest@ =~= start.subrange(i + 1, start.len() as int));
            i = i + 1;
        }
        if !c.is_stale(now) {
            out.push(c);
        }
    }
    assert(start.subrange(0, i) =~= start);
    out
}

proof fn lemma_fresh_len<S>(s: Seq<DotConn<S>>, now: u64)
    ensures
        fresh(s, now).len() <= s.len(),
    decreases s.len(),
{
    if s.len() > 0 {
        lemma_fresh_len(s.drop_last(), now);
    }
}

/// The number of idle connections in the first `n` buckets.
pub open spec fn total<S>(s: Seq<Bucket<S>>, n: int) -> nat
    decreases n,
{
    if n <= 0 {
        0
    } else {
        total(s, n - 1) + s[n - 1].conns@.len()
    }
}

impl<S> DotPool<S> {
    /// Drop every stale connection.
    pub fn sweep(&mut self, now: u64)
        requires
            old(self).wf(),
        ensures
            final(self).wf(),
            forall|k: KeyV| #[trigger] final(self).idle(k) == fresh(old(self).idle(k), now),
    {
        let ghost start = self.buckets@;
        let n: usize = self.buckets.len();
        let mut p: usize = 0;
        while p < n
            invariant
                p <= n,
                n == start.len(),
                self.buckets@.len() == n,
                forall|j: int| 0 <= j < n ==> (#[trigger] self.buckets@[j]).key@ == start[j].key@,
                forall|j: int|
                    0 <= j < p ==> (#[trigger] self.buckets@[j]).conns@ == fresh(
                        start[j].conns@,
                        now,
                    ),
                forall|j: int| p <= j < n ==> (#[trigger] self.buckets@[j]) == start[j],
            decreases n - p,
        {
            let ghost before = self.buckets@;
            let b = self.buckets.remove(p);
            let kept = Bucket { key: b.key, conns: keep_fresh(b.conns, now) };
            self.buckets.insert(p, kept);
            assert(self.buckets@ =~= before.update(p as int, kept));
            p += 1;
        }
        proof {
            assert forall|k: KeyV| #[trigger] self.idle(k) == fresh(old(self).idle(k), now) by {
                lemma_bucket_same_keys(self.buckets@, start, k, 0);
                lemma_bucket_found(start, k, 0);
                if bucket_at(start, k, 0) is None {
                    assert(fresh(Seq::<DotConn<S>>::empty(), now) =~= Seq::empty());
                }
            }
            assert forall|k: KeyV| (#[trigger] self.idle(k)).len() <= MAX_PER_KEY by {
                lemma_fresh_len(old(self).idle(k), now);
                assert(old(self).idle(k).len() <= MAX_PER_KEY);
            }
        }
    }

    /// The number of idle connections; none where it is too large for a machine word.
    pub fn idle_count(&self) -> (r: Option<usize>)
        ensures
            match r {
                Some(n) => n == total(self.buckets@, self.buckets@.len() as int),
                None => total(self.buckets@, self.buckets@.len() as int) > usize::MAX,
            },
    {
        let mut n: usize = 0;
        let mut over: bool = false;
        let mut i: usize = 0;
        while i < self.buckets.len()
            invariant
                i <= self.buckets@.len(),
                !over ==> n == total(self.buckets@, i as int),
                over ==> total(self.buckets@, i as int) > usize::MAX,
            decreases self.buckets@.len() - i,
        {
            let k: usize = self.buckets[i].conns.len();
            if !over {
                if k > usize::MAX - n {
                    over = true;
                } else {
                    n = n + k;
                }
            }
            i += 1;
        }
        if over {
            None
        } else {
            Some(n)
        }
    }
}

/// What is handed out is not stale.
pub proof fn law_no_stale_connection_is_handed_out<S>(s: Seq<DotConn<S>>, now: u64)
    ensures
        match taken(s, now).0 {
            Some(c) => !stale(c, now) && s.contains(c),
            None => forall|i: int| 0 <= i < s.len() ==> stale(#[trigger] s[i], now),
        },
        taken(s, now).1.len() <= s.len(),
    decreases s.len(),
{
    if s.len() > 0 {
        if stale(s.last(), now) {
            law_no_stale_connection_is_handed_out(s.drop_last(), now);
            match taken(s.drop_last(), now).0 {
                Some(c) => {
                    let i = choose|i: int|
                        0 <= i < s.drop_last().len() && s.drop_last()[i] == c;
                    assert(s[i] == c);
                },
                None => {
                    assert forall|i: int| 0 <= i < s.len() implies stale(#[trigger] s[i], now) by {
                        if i < s.len() - 1 {
                            assert(s.drop_last()[i] == s[i]);
                        }
                    }
                },
            }
        } else {
            assert(s[s.len() - 1] == s.last());
        }
    }
}

/// Fail closed: a connection kept for one way of reaching a server is never found under
/// another way, since the two keys differ.
pub proof fn law_tor_and_direct_keys_differ(a: KeyV, b: KeyV)
    requires
        a.via != b.via,
    ensures
        a != b,
{
}

/// What to do after an exchange over a connection.
#[derive(Debug, Clone, Copy, PartialEq, Eq, Structural)]
pub enum ExchangeNext {
    /// Give the connection back and return the reply.
    Release,
    /// Drop the connection, make a new one of the same kind and try once more.
    Rebuild,
    /// Report the failure.
    Fail,
}

/// What to do after an exchange: only a reused connection is worth a second try, since
/// the server may have closed it meanwhile.
pub fn after_exchange(reused: bool, succeeded: bool) -> (r: ExchangeNext)
    ensures
        r == (if succeeded {
            ExchangeNext::Release
        } else if reused {
            ExchangeNext::Rebuild
        } else {
            ExchangeNext::Fail
        }),
{
    if succeeded {
        ExchangeNext::Release
    } else if reused {
        ExchangeNext::Rebuild
    } else {
        ExchangeNext::Fail
    }
}

/// Idle connections of an endpoint stand under its key, all of it.
pub proof fn law_first_bucket<S>(s: Seq<Bucket<S>>, key: KeyV, from: int)
    requires
        0 <= from <= s.len(),
    ensures
        match bucket_at(s, key, from) {
            Some(i) => {
                &&& from <= i < s.len()
                &&& s[i].key@ == key
                &&& forall|j: int| from <= j < i ==> !((#[trigger] s[j]).key@ == key)
            },
            None => forall|j: int| from <= j < s.len() ==> !((#[trigger] s[j]).key@ == key),
        },
    decreases s.len() - from,
{
    if from < s.len() && !(s[from].key@ == key) {
        law_first_bucket(s, key, from + 1);
    }
}

/// A sweep drops the connections that are stale, and keeps the others in order.
pub proof fn law_sweeping_drops_the_stale<S>(s: Seq<DotConn<S>>, now: u64)
    ensures
        fresh(s, now) == s.filter(|x: DotConn<S>| !stale(x, now)),
    decreases s.len(),
{
    let p = |x: DotConn<S>| !stale(x, now);
    crate::lists::lemma_filter_last(s, p);
    if s.len() > 0 {
        law_sweeping_drops_the_stale(s.drop_last(), now);
    }
}


/// The connection handed out is the one released last of those that are not stale; the ones
/// released before it stay, and the stale ones behind it are dropped.
pub proof fn law_warmest_connection_is_handed_out<S>(s: Seq<DotConn<S>>, now: u64)
    ensures
        match taken(s, now).0 {
            Some(c) => exists|k: int|
                {
                    &&& 0 <= k < s.len()
                    &&& c == #[trigger] s[k]
                    &&& !stale(s[k], now)
                    &&& forall|j: int| k < j < s.len() ==> stale(#[trigger] s[j], now)
                    &&& taken(s, now).1 == s.subrange(0, k)
                },
            None => taken(s, now).1.len() == 0 && forall|j: int|
                0 <= j < s.len() ==> stale(#[trigger] s[j], now),
        },
    decreases s.len(),
{
    if s.len() > 0 {
        let rest = s.drop_last();
        assert(s[s.len() - 1] == s.last());
        if !stale(s.last(), now) {
            assert(rest =~= s.subrange(0, s.len() - 1));
            assert(s.last() == s[s.len() - 1]);
        } else {
            law_warmest_connection_is_handed_out(rest, now);
            assert(forall|j: int| 0 <= j < rest.len() ==> #[trigger] rest[j] == s[j]);
            match taken(rest, now).0 {
                Some(c) => {
                    let k = choose|k: int|
                        {
                            &&& 0 <= k < rest.len()
                            &&& c == #[trigger] rest[k]
                            &&& !stale(rest[k], now)
                            &&& forall|j: int| k < j < rest.len() ==> stale(#[trigger] rest[j], now)
                            &&& taken(rest, now).1 == rest.subrange(0, k)
                        };
                    assert(rest.subrange(0, k) =~= s.subrange(0, k));
                    assert(c == s[k]);
                    assert forall|j: int| k < j < s.len() implies stale(#[trigger] s[j], now) by {
                        if j < rest.len() {
                            assert(rest[j] == s[j]);
                        }
                    }
                },
                None => {
                    assert forall|j: int| 0 <= j < s.len() implies stale(#[trigger] s[j], now) by {
                        if j < rest.len() {
                            assert(rest[j] == s[j]);
                        }
                    }
                },
            }
        }
    }
}

/// A connection is stale once it has been idle for its limit, or has lived for its limit
/// however busy it was, and not before.
pub proof fn law_connections_grow_stale<S>(c: DotConn<S>, now: u64)
    ensures
        stale(c, now) <==> c.last_used + 30_000 <= now || c.created_at + 300_000 <= now,
{
}

/// The idle connections of an endpoint are those in its bucket, and there are none for an
/// endpoint without one: no connection is ever found under another key.
pub proof fn law_connections_stay_with_their_endpoint<S>(s: Seq<Bucket<S>>, key: KeyV)
    ensures
        (forall|i: int| 0 <= i < s.len() ==> (#[trigger] s[i]).key@ != key) ==> idle_in(s, key).len()
            == 0,
        forall|i: int|
            0 <= i < s.len() && (#[trigger] s[i]).key@ == key && (forall|j: int|
                0 <= j < i ==> (#[trigger] s[j]).key@ != key) ==> idle_in(s, key) == s[i].conns@,
{
    law_first_bucket(s, key, 0);
}

} // verus!
