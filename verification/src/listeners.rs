//! The set of listening sockets: what is to be bound, kept and closed.

use crate::config::{lists_protocol, Listener, DEFAULT_MAX_INFLIGHT};
use crate::net::IpAddr;
use crate::recursor::dns64::strings_v;
use crate::text::{chars_of, lower_text};
use vstd::prelude::*;

verus! {

/// How often a bind is tried again, in milliseconds.
pub const BIND_BACKOFF_MS: u64 = 200;

/// What a socket speaks.
#[derive(Debug, Clone, Copy, PartialEq, Eq, Structural)]
pub enum Protocol {
    Udp,
    Tcp,
    Dot,
    Doh,
}

/// The name of a protocol in configurations.
pub open spec fn protocol_text(p: Protocol) -> Seq<char> {
    match p {
        Protocol::Udp => "udp"@,
        Protocol::Tcp => "tcp"@,
        Protocol::Dot => "dot"@,
        Protocol::Doh => "doh"@,
    }
}

/// The name of a protocol in configurations.
pub fn protocol_name(p: Protocol) -> (r: &'static str)
    ensures
        r@ == protocol_text(p),
{
    match p {
        Protocol::Udp => "udp",
        Protocol::Tcp => "tcp",
        Protocol::Dot => "dot",
        Protocol::Doh => "doh",
    }
}

/// The protocols, in the order in which they are bound.
pub open spec fn protocols() -> Seq<Protocol> {
    seq![Protocol::Udp, Protocol::Tcp, Protocol::Dot, Protocol::Doh]
}

fn all_protocols() -> (r: Vec<Protocol>)
    ensures
        r@ == protocols(),
{
    let v: Vec<Protocol> = vec![Protocol::Udp, Protocol::Tcp, Protocol::Dot, Protocol::Doh];
    assert(v@ =~= protocols());
    v
}

/// What tells one socket from another.
#[derive(Debug, Clone, Copy, PartialEq, Eq, Structural)]
pub struct ListenerKey {
    pub addr: IpAddr,
    pub port: u16,
    pub proto: Protocol,
}

/// A socket that the configuration asks for, and the listener that it belongs to.
#[derive(Debug, Clone, Copy, PartialEq, Eq, Structural)]
pub struct Binding {
    pub key: ListenerKey,
    pub listener: usize,
}

/// The listener speaks the protocol.
pub open spec fn speaks(l: Listener, p: Protocol) -> bool {
    lists_protocol(strings_v(l.protocols@), protocol_text(p))
}

/// The sockets of listener `i`, for the first `k` protocols.
pub open spec fn sockets_of(l: Listener, i: int, k: int) -> Seq<Binding>
    decreases k,
{
    if k <= 0 {
        Seq::empty()
    } else {
        let rest = sockets_of(l, i, k - 1);
        let p = protocols()[k - 1];
        if speaks(l, p) {
            rest.push(
                Binding {
                    key: ListenerKey { addr: l.address, port: l.port, proto: p },
                    listener: i as usize,
                },
            )
        } else {
            rest
        }
    }
}

/// The sockets that the first `n` listeners ask for, in order.
pub open spec fn sockets(ls: Seq<Listener>, n: int) -> Seq<Binding>
    decreases n,
{
    if n <= 0 {
        Seq::empty()
    } else {
        sockets(ls, n - 1) + sockets_of(ls[n - 1], n - 1, 4)
    }
}

/// The sockets that the listeners ask for, in order.
pub fn desired(ls: &Vec<Listener>) -> (r: Vec<Binding>)
    ensures
        r@ == sockets(ls@, ls@.len() as int),
{
    let protos = all_protocols();
    let mut out: Vec<Binding> = Vec::new();
    let mut i: usize = 0;
    while i < ls.len()
        invariant
            i <= ls@.len(),
            protos@ == protocols(),
            out@ == sockets(ls@, i as int),
        decreases ls@.len() - i,
    {
        let ghost before = out@;
        let l: &Listener = &ls[i];
        let mut k: usize = 0;
        assert(before + sockets_of(*l, i as int, 0) =~= before);
        while k < 4
            invariant
                k <= 4,
                i < ls@.len(),
                *l == ls@[i as int],
                protos@ == protocols(),
                out@ == before + sockets_of(*l, i as int, k as int),
            decreases 4 - k,
        {
            let p: Protocol = protos[k];
            if l.has_protocol(protocol_name(p)) {
                out.push(
                    Binding {
                        key: ListenerKey { addr: l.address, port: l.port, proto: p },
                        listener: i,
                    },
                );
            }
            k += 1;
            assert(out@ =~= before + sockets_of(*l, i as int, k as int));
        }
        i += 1;
    }
    out
}

/// The key is on the list.
pub open spec fn bound(keys: Seq<ListenerKey>, k: ListenerKey) -> bool {
    exists|i: int| 0 <= i < keys.len() && #[trigger] keys[i] == k
}

fn is_bound(keys: &Vec<ListenerKey>, k: ListenerKey) -> (r: bool)
    ensures
        r == bound(keys@, k),
{
    let mut i: usize = 0;
    while i < keys.len()
        invariant
            i <= keys@.len(),
            forall|j: int| 0 <= j < i ==> #[trigger] keys@[j] != k,
        decreases keys@.len() - i,
    {
        if keys[i] == k {
            return true;
        }
        i += 1;
    }
    false
}

/// The sockets of the list that are not bound yet, in order.
pub open spec fn unbound(want: Seq<Binding>, have: Seq<ListenerKey>) -> Seq<Binding>
    decreases want.len(),
{
    if want.len() == 0 {
        Seq::empty()
    } else {
        let rest = unbound(want.drop_last(), have);
        if bound(have, want.last().key) {
            rest
        } else {
            rest.push(want.last())
        }
    }
}

/// The sockets that are still to be bound.
pub fn pending(ls: &Vec<Listener>, have: &Vec<ListenerKey>) -> (r: Vec<Binding>)
    ensures
        r@ == unbound(sockets(ls@, ls@.len() as int), have@),
{
    let want = desired(ls);
    let mut out: Vec<Binding> = Vec::new();
    let mut i: usize = 0;
    while i < want.len()
        invariant
            i <= want@.len(),
            out@ == unbound(want@.subrange(0, i as int), have@),
        decreases want@.len() - i,
    {
        proof {
            assert(want@.subrange(0, i + 1).drop_last() =~= want@.subrange(0, i as int));
        }
        if !is_bound(have, want[i].key) {
            out.push(want[i]);
        }
        i += 1;
    }
    assert(want@.subrange(0, want@.len() as int) =~= want@);
    out
}

/// What to do about one socket.
#[derive(Debug, Clone, Copy, PartialEq, Eq, Structural)]
pub enum BindAction {
    /// Bind it; `max_inflight` is how many queries may be under way.
    Bind { max_inflight: u32 },
    /// Leave it: it needs a certificate, and there is none.
    Skip,
}

/// What to do about one socket.
pub fn bind_action(proto: Protocol, have_tls: bool, max_inflight: Option<u32>) -> (r: BindAction)
    ensures
        r == (if (proto == Protocol::Dot || proto == Protocol::Doh) && !have_tls {
            BindAction::Skip
        } else {
            BindAction::Bind {
                max_inflight: match max_inflight {
                    Some(n) => n,
                    None => DEFAULT_MAX_INFLIGHT,
                },
            }
        }),
{
    if (proto == Protocol::Dot || proto == Protocol::Doh) && !have_tls {
        BindAction::Skip
    } else {
        BindAction::Bind {
            max_inflight: match max_inflight {
                Some(n) => n,
                None => DEFAULT_MAX_INFLIGHT,
            },
        }
    }
}

/// What to do after every pending socket was tried.
#[derive(Debug, Clone, Copy, PartialEq, Eq, Structural)]
pub enum BindNext {
    /// All is done.
    Done,
    /// Report the failures and go on without those sockets.
    GiveUp,
    /// Wait so many milliseconds and try those that failed again.
    Retry(u64),
}

/// What to do after every pending socket was tried; times are in milliseconds.
pub fn after_bind_round(failed: usize, now: u64, deadline: u64) -> (r: BindNext)
    ensures
        r == (if failed == 0 {
            BindNext::Done
        } else if now >= deadline {
            BindNext::GiveUp
        } else {
            BindNext::Retry(BIND_BACKOFF_MS)
        }),
{
    if failed == 0 {
        BindNext::Done
    } else if now >= deadline {
        BindNext::GiveUp
    } else {
        BindNext::Retry(BIND_BACKOFF_MS)
    }
}

/// The listener to which a socket belongs: the last that asks for it, among the first `n`
/// sockets.
pub open spec fn owner_of(want: Seq<Binding>, k: ListenerKey, n: int) -> Option<usize>
    decreases n,
{
    if n <= 0 {
        None
    } else if want[n - 1].key == k {
        Some(want[n - 1].listener)
    } else {
        owner_of(want, k, n - 1)
    }
}

/// What a new configuration means for each bound socket: none for one to be closed, else
/// the listener whose access list and settings it gets.
pub fn reload_diff(ls: &Vec<Listener>, have: &Vec<ListenerKey>) -> (r: Vec<Option<usize>>)
    ensures
        r@.len() == have@.len(),
        forall|i: int|
            0 <= i < have@.len() ==> #[trigger] r@[i] == owner_of(
                sockets(ls@, ls@.len() as int),
                have@[i],
                sockets(ls@, ls@.len() as int).len() as int,
            ),
{
    let want = desired(ls);
    let mut out: Vec<Option<usize>> = Vec::new();
    let mut i: usize = 0;
    while i < have.len()
        invariant
            i <= have@.len(),
            out@.len() == i,
            forall|j: int|
                0 <= j < i ==> #[trigger] out@[j] == owner_of(
                    want@,
                    have@[j],
                    want@.len() as int,
                ),
        decreases have@.len() - i,
    {
        let key: ListenerKey = have[i];
        let mut n: usize = want.len();
        let mut found: Option<usize> = None;
        while n > 0 && found.is_none()
            invariant
                n <= want@.len(),
                found is None ==> owner_of(want@, key, want@.len() as int) == owner_of(
                    want@,
                    key,
                    n as int,
                ),
                found is Some ==> owner_of(want@, key, want@.len() as int) == found,
            decreases n,
        {
            if want[n - 1].key == key {
                found = Some(want[n - 1].listener);
            }
            n -= 1;
        }
        out.push(found);
        i += 1;
    }
    out
}

proof fn lemma_owner_found(want: Seq<Binding>, k: ListenerKey, n: int, j: int)
    requires
        0 <= j < n <= want.len(),
        want[j].key == k,
    ensures
        owner_of(want, k, n) is Some,
    decreases n,
{
    if want[n - 1].key != k {
        lemma_owner_found(want, k, n - 1, j);
    }
}

/// A reload closes no socket that the new configuration still asks for.
pub proof fn law_reload_keeps_wanted_sockets(ls: Seq<Listener>, key: ListenerKey, j: int)
    requires
        0 <= j < sockets(ls, ls.len() as int).len(),
        sockets(ls, ls.len() as int)[j].key == key,
    ensures
        owner_of(
            sockets(ls, ls.len() as int),
            key,
            sockets(ls, ls.len() as int).len() as int,
        ) is Some,
{
    let want = sockets(ls, ls.len() as int);
    lemma_owner_found(want, key, want.len() as int, j);
}

/// A listening socket as shown to operators.
#[derive(Debug)]
pub struct ListenerInfo {
    pub name: String,
    pub address: String,
    pub port: u16,
    pub protocol: String,
    pub allow_from: Vec<String>,
    pub dns64: bool,
}

/// Order of two texts, by character, from position `i` on.
pub open spec fn text_before(a: Seq<char>, b: Seq<char>, i: int) -> int
    decreases a.len() - i,
{
    if i < 0 || i >= a.len() || i >= b.len() {
        if a.len() < b.len() {
            -1
        } else if a.len() > b.len() {
            1
        } else {
            0
        }
    } else if a[i] != b[i] {
        if (a[i] as u32) < (b[i] as u32) {
            -1
        } else {
            1
        }
    } else {
        text_before(a, b, i + 1)
    }
}

/// Order of two rows: by address, port and protocol.
pub open spec fn row_order(a: ListenerInfo, b: ListenerInfo) -> int {
    let x = text_before(a.address@, b.address@, 0);
    if x != 0 {
        x
    } else if a.port != b.port {
        if a.port < b.port {
            -1
        } else {
            1
        }
    } else {
        text_before(a.protocol@, b.protocol@, 0)
    }
}

fn compare_text(a: &str, b: &str) -> (r: i8)
    ensures
        r == text_before(a@, b@, 0),
        -1 <= r <= 1,
{
    let x = chars_of(a);
    let y = chars_of(b);
    let mut i: usize = 0;
    while i < x.len() && i < y.len()
        invariant
            i <= x@.len(),
            i <= y@.len(),
            x@ == a@,
            y@ == b@,
            text_before(a@, b@, 0) == text_before(a@, b@, i as int),
        decreases x@.len() - i,
    {
        if x[i] != y[i] {
            return if (x[i] as u32) < (y[i] as u32) {
                -1
            } else {
                1
            };
        }
        i += 1;
    }
    if x.len() < y.len() {
        -1
    } else if x.len() > y.len() {
        1
    } else {
        0
    }
}

fn compare_rows(a: &ListenerInfo, b: &ListenerInfo) -> (r: i8)
    ensures
        r == row_order(*a, *b),
{
    let x: i8 = compare_text(a.address.as_str(), b.address.as_str());
    if x != 0 {
        x
    } else if a.port != b.port {
        if a.port < b.port {
            -1
        } else {
            1
        }
    } else {
        compare_text(a.protocol.as_str(), b.protocol.as_str())
    }
}

/// The first position, from `i` on, of a row that comes after the given one.
pub open spec fn row_slot(s: Seq<ListenerInfo>, r: ListenerInfo, i: int) -> int
    decreases s.len() - i,
{
    if i < 0 || i >= s.len() || row_order(s[i], r) > 0 {
        i
    } else {
        row_slot(s, r, i + 1)
    }
}

/// The rows in order; rows of equal rank stay in the order in which they came.
pub open spec fn rows_sorted(s: Seq<ListenerInfo>) -> Seq<ListenerInfo>
    decreases s.len(),
{
    if s.len() == 0 {
        s
    } else {
        let rest = rows_sorted(s.drop_last());
        rest.insert(row_slot(rest, s.last(), 0), s.last())
    }
}

/// Put the rows in order, so that the same sockets are always shown in the same way.
pub fn snapshot_listeners(rows: Vec<ListenerInfo>) -> (r: Vec<ListenerInfo>)
    ensures
        r@ == rows_sorted(rows@),
{
    let ghost start = rows@;
    let mut rest = rows;
    let mut out: Vec<ListenerInfo> = Vec::new();
    let ghost mut k: int = 0;
    assert(start.subrange(0, 0) =~= Seq::empty());
    assert(start.subrange(0, start.len() as int) =~= start);
    while rest.len() > 0
        invariant
            0 <= k <= start.len(),
            rest@ == start.subrange(k, start.len() as int),
            out@ == rows_sorted(start.subrange(0, k)),
        decreases rest@.len(),
    {
        let row = rest.remove(0);
        let ghost before = out@;
        proof {
            assert(row == start[k]);
            assert(start.subrange(0, k + 1).drop_last() =~= start.subrange(0, k));
            assert(rest@ =~= start.subrange(k + 1, start.len() as int));
        }
        let n: usize = out.len();
        let mut p: usize = 0;
        while p < n && compare_rows(&out[p], &row) <= 0
            invariant
                p <= n,
                n == out@.len(),
                out@ == before,
                row_slot(before, row, 0) == row_slot(before, row, p as int),
            decreases n - p,
        {
            p += 1;
        }
        assert(row_slot(before, row, 0) == p);
        out.insert(p, row);
        proof {
            k = k + 1;
        }
    }
    assert(start.subrange(0, k) =~= start);
    out
}

/// A listener speaks a protocol that its configuration names, in any case.
pub open spec fn names_protocol(l: Listener, name: Seq<char>) -> bool {
    exists|i: int|
        0 <= i < l.protocols@.len() && lower_text((#[trigger] l.protocols@[i])@) == lower_text(name)
}

proof fn lemma_speaks(l: Listener, p: Protocol)
    ensures
        speaks(l, p) <==> names_protocol(l, protocol_text(p)),
{
    let v = strings_v(l.protocols@);
    if speaks(l, p) {
        let i = choose|i: int|
            0 <= i < v.len() && lower_text(#[trigger] v[i]) == lower_text(protocol_text(p));
        assert(l.protocols@[i]@ == v[i]);
    }
    if names_protocol(l, protocol_text(p)) {
        let i = choose|i: int|
            0 <= i < l.protocols@.len() && lower_text((#[trigger] l.protocols@[i])@) == lower_text(
                protocol_text(p),
            );
        assert(v[i] == l.protocols@[i]@);
    }
}

proof fn lemma_sockets_of(l: Listener, n: int)
    ensures
        forall|p: Protocol|
            speaks(l, p) ==> sockets_of(l, n, 4).contains(
                #[trigger] socket_for(l, p, n as usize),
            ),
        forall|k: int|
            0 <= k < sockets_of(l, n, 4).len() ==> is_socket_of(l, n as usize, #[trigger] sockets_of(l, n, 4)[k]),
{
    reveal_with_fuel(sockets_of, 5);
    let s = sockets_of(l, n, 4);
    assert forall|p: Protocol| speaks(l, p) implies s.contains(
        #[trigger] socket_for(l, p, n as usize),
    ) by {
        let b = socket_for(l, p, n as usize);
        let s1 = sockets_of(l, n, 1);
        let s2 = sockets_of(l, n, 2);
        let s3 = sockets_of(l, n, 3);
        match p {
            Protocol::Udp => {
                assert(s1[0] == b);
                assert(s2[0] == b);
                assert(s3[0] == b);
                assert(s[0] == b);
            },
            Protocol::Tcp => {
                let k = s1.len() as int;
                assert(s2[k] == b);
                assert(s3[k] == b);
                assert(s[k] == b);
            },
            Protocol::Dot => {
                let k = s2.len() as int;
                assert(s3[k] == b);
                assert(s[k] == b);
            },
            Protocol::Doh => {
                assert(s[s3.len() as int] == b);
            },
        }
    }
}

/// The socket of a listener for a protocol.
pub open spec fn socket_for(l: Listener, p: Protocol, n: usize) -> Binding {
    Binding { key: ListenerKey { addr: l.address, port: l.port, proto: p }, listener: n }
}

/// A socket is one of the listener's.
pub open spec fn is_socket_of(l: Listener, n: usize, b: Binding) -> bool {
    speaks(l, b.key.proto) && b == socket_for(l, b.key.proto, n)
}

/// There is a socket for every listener and every protocol that it names, on its address and
/// port, and no other.
pub proof fn law_every_protocol_has_its_socket(ls: Seq<Listener>, n: int)
    requires
        0 <= n <= ls.len(),
    ensures
        forall|i: int, p: Protocol|
            0 <= i < n && names_protocol(#[trigger] ls[i], protocol_text(p)) ==> sockets(
                ls,
                n,
            ).contains(#[trigger] socket_for(ls[i], p, i as usize)),
        forall|k: int|
            0 <= k < sockets(ls, n).len() ==> from_some_listener(ls, n, #[trigger] sockets(ls, n)[k]),
    decreases n,
{
    if n > 0 {
        law_every_protocol_has_its_socket(ls, n - 1);
        lemma_sockets_of(ls[n - 1], n - 1);
        let rest = sockets(ls, n - 1);
        let own = sockets_of(ls[n - 1], n - 1, 4);
        let all = sockets(ls, n);
        assert forall|i: int, p: Protocol|
            0 <= i < n && names_protocol(#[trigger] ls[i], protocol_text(p)) implies all.contains(
            #[trigger] socket_for(ls[i], p, i as usize),
        ) by {
            let b = socket_for(ls[i], p, i as usize);
            lemma_speaks(ls[i], p);
            if i < n - 1 {
                let k = choose|k: int| 0 <= k < rest.len() && rest[k] == b;
                assert(all[k] == b);
            } else {
                let k = choose|k: int| 0 <= k < own.len() && own[k] == b;
                assert(all[rest.len() + k] == b);
            }
        }
        assert forall|k: int| 0 <= k < all.len() implies from_some_listener(
            ls,
            n,
            #[trigger] all[k],
        ) by {
            if k < rest.len() {
                assert(all[k] == rest[k]);
                let i = choose|i: int|
                    0 <= i < n - 1 && is_socket_of(#[trigger] ls[i], i as usize, rest[k]);
                assert(is_socket_of(ls[i], i as usize, all[k]));
            } else {
                assert(all[k] == own[k - rest.len()]);
                assert(is_socket_of(ls[n - 1], (n - 1) as usize, all[k]));
            }
        }
    }
}

/// A socket is one of some listener's.
pub open spec fn from_some_listener(ls: Seq<Listener>, n: int, b: Binding) -> bool {
    exists|i: int| 0 <= i < n && is_socket_of(#[trigger] ls[i], i as usize, b)
}

/// The sockets still to be bound are all those wanted that are not bound, in order.
pub proof fn law_pending_sockets_are_the_unbound(want: Seq<Binding>, have: Seq<ListenerKey>)
    ensures
        unbound(want, have) == want.filter(|x: Binding| !bound(have, x.key)),
    decreases want.len(),
{
    let p = |x: Binding| !bound(have, x.key);
    crate::lists::lemma_filter_last(want, p);
    if want.len() > 0 {
        law_pending_sockets_are_the_unbound(want.drop_last(), have);
    }
}


/// A bound socket belongs to the last of the wanted ones with its key, and is closed where
/// there is none.
pub proof fn law_bound_sockets_find_their_listener(want: Seq<Binding>, k: ListenerKey, n: int)
    requires
        0 <= n <= want.len(),
    ensures
        match owner_of(want, k, n) {
            Some(l) => exists|i: int|
                {
                    &&& 0 <= i < n
                    &&& (#[trigger] want[i]).key == k
                    &&& want[i].listener == l
                    &&& forall|j: int| i < j < n ==> (#[trigger] want[j]).key != k
                },
            None => forall|i: int| 0 <= i < n ==> (#[trigger] want[i]).key != k,
        },
    decreases n,
{
    if n > 0 {
        if want[n - 1].key == k {
            assert(owner_of(want, k, n) == Some(want[n - 1].listener));
        } else {
            law_bound_sockets_find_their_listener(want, k, n - 1);
        }
    }
}

proof fn lemma_char_number(x: char, y: char)
    ensures
        x as u32 == y as u32 ==> x == y,
{
}

proof fn lemma_text_order(a: Seq<char>, b: Seq<char>, c: Seq<char>, i: int)
    requires
        0 <= i <= a.len(),
        i <= b.len(),
        i <= c.len(),
    ensures
        text_before(a, b, i) == -text_before(b, a, i),
        text_before(a, b, i) <= 0 && text_before(b, c, i) <= 0 ==> text_before(a, c, i) <= 0,
        text_before(a, b, i) <= 0 && text_before(b, c, i) < 0 ==> text_before(a, c, i) < 0,
        text_before(a, b, i) < 0 && text_before(b, c, i) <= 0 ==> text_before(a, c, i) < 0,
    decreases a.len() - i,
{
    lemma_text_flip(a, b, i);
    if i < a.len() && i < b.len() && i < c.len() {
        lemma_char_number(a[i], b[i]);
        lemma_char_number(b[i], c[i]);
        lemma_char_number(a[i], c[i]);
        if a[i] == b[i] && b[i] == c[i] {
            lemma_text_order(a, b, c, i + 1);
        }
    }
}

proof fn lemma_text_flip(a: Seq<char>, b: Seq<char>, i: int)
    requires
        0 <= i,
    ensures
        text_before(a, b, i) == -text_before(b, a, i),
    decreases a.len() - i,
{
    if i < a.len() && i < b.len() {
        lemma_char_number(a[i], b[i]);
        lemma_text_flip(a, b, i + 1);
    }
}

proof fn lemma_row_order(a: ListenerInfo, b: ListenerInfo, c: ListenerInfo)
    ensures
        row_order(a, b) == -row_order(b, a),
        row_order(a, b) <= 0 && row_order(b, c) <= 0 ==> row_order(a, c) <= 0,
{
    lemma_text_order(a.address@, b.address@, c.address@, 0);
    lemma_text_order(a.protocol@, b.protocol@, c.protocol@, 0);
    lemma_text_order(b.address@, c.address@, a.address@, 0);
    lemma_text_order(c.address@, a.address@, b.address@, 0);
    lemma_text_order(a.address@, c.address@, b.address@, 0);
}

proof fn lemma_row_slot(s: Seq<ListenerInfo>, r: ListenerInfo, i: int)
    requires
        0 <= i <= s.len(),
        forall|j: int| 0 <= j < i ==> row_order(#[trigger] s[j], r) <= 0,
    ensures
        i <= row_slot(s, r, i) <= s.len(),
        forall|j: int| 0 <= j < row_slot(s, r, i) ==> row_order(#[trigger] s[j], r) <= 0,
        row_slot(s, r, i) < s.len() ==> row_order(s[row_slot(s, r, i)], r) > 0,
    decreases s.len() - i,
{
    if i < s.len() && row_order(s[i], r) <= 0 {
        lemma_row_slot(s, r, i + 1);
    }
}

/// The listing of sockets holds every row once, and orders them by address, port and protocol.
pub proof fn law_listing_is_sorted(s: Seq<ListenerInfo>)
    ensures
        rows_sorted(s).len() == s.len(),
        rows_sorted(s).to_multiset() == s.to_multiset(),
        forall|i: int, j: int|
            0 <= i < j < s.len() ==> row_order(
                #[trigger] rows_sorted(s)[i],
                #[trigger] rows_sorted(s)[j],
            ) <= 0,
    decreases s.len(),
{
    broadcast use vstd::seq_lib::group_to_multiset_ensures;

    if s.len() > 0 {
        let rest = rows_sorted(s.drop_last());
        let r = s.last();
        law_listing_is_sorted(s.drop_last());
        lemma_row_slot(rest, r, 0);
        let p = row_slot(rest, r, 0);
        let all = rows_sorted(s);
        assert(all == rest.insert(p, r));
        assert(s.drop_last().push(r) =~= s);
        assert forall|i: int, j: int| 0 <= i < j < s.len() implies row_order(
            #[trigger] all[i],
            #[trigger] all[j],
        ) <= 0 by {
            let x = if i < p {
                i
            } else {
                i - 1
            };
            let y = if j < p {
                j
            } else {
                j - 1
            };
            if i == p {
                assert(all[j] == rest[j - 1]);
                lemma_row_order(r, rest[p], rest[j - 1]);
                lemma_row_order(rest[p], r, r);
                if j - 1 > p {
                    assert(row_order(rest[p], rest[j - 1]) <= 0);
                }
            } else if j == p {
                assert(all[i] == rest[i]);
            } else {
                assert(all[i] == rest[x] && all[j] == rest[y]);
            }
        }
    }
}

/// A socket is bound exactly where its key, any one of those listed, is.
pub proof fn law_bound_sockets(keys: Seq<ListenerKey>, k: ListenerKey)
    ensures
        bound(keys, k) <==> keys.contains(k),
{
    if keys.contains(k) {
        let i = choose|i: int| 0 <= i < keys.len() && keys[i] == k;
        assert(keys[i] == k);
    }
}

} // verus!
