//! IP addresses and networks as plain values.

use vstd::prelude::*;

verus! {

/// An IP address, as the number that its bits make.
#[derive(Debug, Clone, Copy, PartialEq, Eq, Structural)]
pub enum IpAddr {
    V4(u32),
    V6(u128),
}

impl IpAddr {
    /// Whether this is an IPv4 address.
    pub fn is_ipv4(&self) -> (r: bool)
        ensures
            r == (*self is V4),
    {
        match self {
            IpAddr::V4(_) => true,
            IpAddr::V6(_) => false,
        }
    }
}

/// An address and a port.
#[derive(Debug, Clone, Copy, PartialEq, Eq, Structural)]
pub struct SocketAddr {
    pub ip: IpAddr,
    pub port: u16,
}

/// A network: an address and the number of leading bits that count.
#[derive(Debug, Clone, Copy, PartialEq, Eq, Structural)]
pub struct IpNet {
    pub addr: IpAddr,
    pub prefix_len: u8,
}

/// Two to the power of `n`.
pub open spec fn pow2(n: nat) -> nat
    decreases n,
{
    if n == 0 {
        1
    } else {
        2 * pow2((n - 1) as nat)
    }
}

/// Two numbers of `width` bits agree in their first `len` bits.
pub open spec fn same_prefix(a: nat, b: nat, len: nat, width: nat) -> bool {
    len <= width && a / pow2((width - len) as nat) == b / pow2((width - len) as nat)
}

/// The network holds the address.
pub open spec fn net_contains(n: IpNet, ip: IpAddr) -> bool {
    match (n.addr, ip) {
        (IpAddr::V4(a), IpAddr::V4(b)) => same_prefix(a as nat, b as nat, n.prefix_len as nat, 32),
        (IpAddr::V6(a), IpAddr::V6(b)) => same_prefix(
            a as nat,
            b as nat,
            n.prefix_len as nat,
            128,
        ),
        _ => false,
    }
}

/// Halve both numbers until only the leading `len` bits are left.
fn shared_prefix(a: u128, b: u128, len: u8, width: u8) -> (r: bool)
    ensures
        r == same_prefix(a as nat, b as nat, len as nat, width as nat),
{
    if len > width {
        return false;
    }
    let mut x: u128 = a;
    let mut y: u128 = b;
    let mut left: u8 = width - len;
    while left > 0
        invariant
            left <= width - len,
            len <= width,
            a as nat / pow2((width - len) as nat) == x as nat / pow2(left as nat),
            b as nat / pow2((width - len) as nat) == y as nat / pow2(left as nat),
        decreases left,
    {
        proof {
            lemma_halve(x as nat, left as nat);
            lemma_halve(y as nat, left as nat);
        }
        x = x / 2;
        y = y / 2;
        left = left - 1;
    }
    assert(left == 0);
    assert(pow2(left as nat) == 1);
    assert(x as nat / 1 == x as nat);
    assert(y as nat / 1 == y as nat);
    x == y
}

proof fn lemma_pow2_positive(n: nat)
    ensures
        pow2(n) > 0,
    decreases n,
{
    if n > 0 {
        lemma_pow2_positive((n - 1) as nat);
    }
}

proof fn lemma_halve(x: nat, n: nat)
    requires
        n > 0,
    ensures
        x / pow2(n) == (x / 2) / pow2((n - 1) as nat),
{
    let p = pow2((n - 1) as nat);
    lemma_pow2_positive((n - 1) as nat);
    vstd::arithmetic::div_mod::lemma_div_denominator(x as int, 2, p as int);
}

impl IpNet {
    /// Whether the network holds the address.
    pub fn contains(&self, ip: IpAddr) -> (r: bool)
        ensures
            r == net_contains(*self, ip),
    {
        match (self.addr, ip) {
            (IpAddr::V4(a), IpAddr::V4(b)) => shared_prefix(
                a as u128,
                b as u128,
                self.prefix_len,
                32,
            ),
            (IpAddr::V6(a), IpAddr::V6(b)) => shared_prefix(a, b, self.prefix_len, 128),
            _ => false,
        }
    }
}

/// The number that big-endian bytes make.
pub open spec fn be_nat(b: Seq<u8>) -> nat
    decreases b.len(),
{
    if b.len() == 0 {
        0
    } else {
        be_nat(b.drop_last()) * 256 + b.last() as nat
    }
}

/// The low `k` bytes of a number, big-endian.
pub open spec fn be_bytes(n: nat, k: nat) -> Seq<u8>
    decreases k,
{
    if k == 0 {
        Seq::empty()
    } else {
        be_bytes(n / 256, (k - 1) as nat).push((n % 256) as u8)
    }
}

/// 256 to the power of `k`.
pub open spec fn pow256(k: nat) -> nat
    decreases k,
{
    if k == 0 {
        1
    } else {
        256 * pow256((k - 1) as nat)
    }
}

/// Big-endian bytes make a number below 256 to the power of their count.
pub proof fn lemma_be_nat_bound(b: Seq<u8>)
    ensures
        be_nat(b) < pow256(b.len()),
    decreases b.len(),
{
    if b.len() > 0 {
        lemma_be_nat_bound(b.drop_last());
    }
}

/// Writing a number in `k` bytes and reading it back is the identity.
pub proof fn lemma_be_roundtrip(n: nat, k: nat)
    requires
        n < pow256(k),
    ensures
        be_bytes(n, k).len() == k,
        be_nat(be_bytes(n, k)) == n,
    decreases k,
{
    if k > 0 {
        lemma_be_roundtrip(n / 256, (k - 1) as nat);
        assert(be_bytes(n, k).drop_last() =~= be_bytes(n / 256, (k - 1) as nat));
    }
}

/// Reading big-endian bytes and writing the number back is the identity.
pub proof fn lemma_be_unique(b: Seq<u8>)
    ensures
        be_bytes(be_nat(b), b.len()) == b,
    decreases b.len(),
{
    if b.len() > 0 {
        lemma_be_unique(b.drop_last());
        assert(be_nat(b) / 256 == be_nat(b.drop_last()));
        assert(be_bytes(be_nat(b), b.len()) =~= b);
    }
}

/// How many numbers four bytes and sixteen bytes can hold.
pub proof fn lemma_pow256_values()
    ensures
        pow256(4) == 0x1_0000_0000,
        pow256(16) == 0x1_0000_0000_0000_0000_0000_0000_0000_0000,
{
    reveal_with_fuel(pow256, 17);
    assert(pow256(4) == 0x1_0000_0000);
    assert(pow256(8) == 0x1_0000_0000_0000_0000);
    assert(pow256(12) == 0x1_0000_0000_0000_0000_0000_0000);
}

/// The number that at most sixteen big-endian bytes make.
pub fn read_be(b: &[u8]) -> (r: u128)
    requires
        b@.len() <= 16,
    ensures
        r == be_nat(b@),
{
    let mut n: u128 = 0;
    let mut i: usize = 0;
    assert(b@.subrange(0, 0) =~= Seq::<u8>::empty());
    while i < b.len()
        invariant
            i <= b@.len() <= 16,
            n == be_nat(b@.subrange(0, i as int)),
        decreases b@.len() - i,
    {
        proof {
            let t = b@.subrange(0, i + 1);
            assert(t.drop_last() =~= b@.subrange(0, i as int));
            lemma_be_nat_bound(t);
            lemma_pow256_monotonic(t.len(), 16);
            lemma_pow256_values();
        }
        n = n * 256 + b[i] as u128;
        i += 1;
    }
    assert(b@.subrange(0, b@.len() as int) =~= b@);
    n
}

proof fn lemma_pow256_monotonic(a: nat, b: nat)
    requires
        a <= b,
    ensures
        pow256(a) <= pow256(b),
    decreases b - a,
{
    if a < b {
        lemma_pow256_monotonic(a, (b - 1) as nat);
    }
}

/// The low `k` bytes of a number, big-endian.
pub fn write_be(n: u128, k: usize) -> (r: Vec<u8>)
    ensures
        r@ == be_bytes(n as nat, k as nat),
        r@.len() == k,
    decreases k,
{
    if k == 0 {
        let r: Vec<u8> = Vec::new();
        assert(r@ =~= be_bytes(n as nat, 0));
        r
    } else {
        let mut r = write_be(n / 256, k - 1);
        r.push((n % 256) as u8);
        r
    }
}

/// Order of addresses: IPv4 before IPv6, then by number.
pub open spec fn ip_before(a: IpAddr, b: IpAddr) -> bool {
    match (a, b) {
        (IpAddr::V4(x), IpAddr::V4(y)) => x < y,
        (IpAddr::V4(_), IpAddr::V6(_)) => true,
        (IpAddr::V6(_), IpAddr::V4(_)) => false,
        (IpAddr::V6(x), IpAddr::V6(y)) => x < y,
    }
}

/// Addresses in strictly increasing order.
pub open spec fn ips_sorted(s: Seq<IpAddr>) -> bool {
    forall|i: int, j: int| 0 <= i < j < s.len() ==> ip_before(#[trigger] s[i], #[trigger] s[j])
}

fn ip_lt(a: IpAddr, b: IpAddr) -> (r: bool)
    ensures
        r == ip_before(a, b),
{
    match (a, b) {
        (IpAddr::V4(x), IpAddr::V4(y)) => x < y,
        (IpAddr::V4(_), IpAddr::V6(_)) => true,
        (IpAddr::V6(_), IpAddr::V4(_)) => false,
        (IpAddr::V6(x), IpAddr::V6(y)) => x < y,
    }
}

fn insert_sorted(s: &mut Vec<IpAddr>, ip: IpAddr)
    requires
        ips_sorted(old(s)@),
    ensures
        ips_sorted(final(s)@),
        forall|x: IpAddr| final(s)@.contains(x) <==> old(s)@.contains(x) || x == ip,
{
    let n: usize = s.len();
    let mut p: usize = 0;
    while p < n && ip_lt(s[p], ip)
        invariant
            p <= n,
            n == s@.len(),
            forall|j: int| 0 <= j < p ==> ip_before(#[trigger] s@[j], ip),
        decreases n - p,
    {
        p += 1;
    }
    let ghost before = s@;
    if p < n && !ip_lt(ip, s[p]) {
        assert(s@[p as int] == ip);
        assert forall|x: IpAddr| s@.contains(x) <==> before.contains(x) || x == ip by {}
    } else {
        s.insert(p, ip);
        assert(s@ == before.insert(p as int, ip));
        assert forall|x: IpAddr| s@.contains(x) <==> before.contains(x) || x == ip by {
            if before.contains(x) {
                let k = choose|k: int| 0 <= k < before.len() && before[k] == x;
                if k < p {
                    assert(s@[k] == x);
                } else {
                    assert(s@[k + 1] == x);
                }
            }
            if x == ip {
                assert(s@[p as int] == ip);
            }
            if s@.contains(x) && x != ip {
                let k = choose|k: int| 0 <= k < s@.len() && s@[k] == x;
                if k < p {
                    assert(before[k] == x);
                } else {
                    assert(before[k - 1] == x);
                }
            }
        }
        assert forall|i: int, j: int| 0 <= i < j < s@.len() implies ip_before(
            #[trigger] s@[i],
            #[trigger] s@[j],
        ) by {
            let bi = if i < p {
                i
            } else {
                i - 1
            };
            let bj = if j < p {
                j
            } else {
                j - 1
            };
            if i == p {
                assert(s@[j] == before[j - 1]);
                if j - 1 > p {
                    assert(ip_before(before[p as int], before[j - 1]));
                }
            } else if j == p {
                assert(s@[i] == before[i]);
            } else {
                assert(s@[i] == before[bi]);
                assert(s@[j] == before[bj]);
            }
        }
    }
}

/// The addresses in increasing order, each once.
pub fn sort_dedup(ips: &Vec<IpAddr>) -> (r: Vec<IpAddr>)
    ensures
        ips_sorted(r@),
        forall|x: IpAddr| r@.contains(x) <==> ips@.contains(x),
{
    let mut out: Vec<IpAddr> = Vec::new();
    let mut i: usize = 0;
    while i < ips.len()
        invariant
            i <= ips@.len(),
            ips_sorted(out@),
            forall|x: IpAddr| out@.contains(x) <==> ips@.subrange(0, i as int).contains(x),
        decreases ips@.len() - i,
    {
        let ghost prev = ips@.subrange(0, i as int);
        let ghost had = out@;
        insert_sorted(&mut out, ips[i]);
        proof {
            let next = ips@.subrange(0, i + 1);
            assert(next =~= prev.push(ips@[i as int]));
            assert forall|x: IpAddr| out@.contains(x) <==> next.contains(x) by {
                if prev.contains(x) {
                    let k = choose|k: int| 0 <= k < prev.len() && prev[k] == x;
                    assert(next[k] == x);
                }
                if x == ips@[i as int] {
                    assert(next[i as int] == x);
                }
                if next.contains(x) && x != ips@[i as int] {
                    let k = choose|k: int| 0 <= k < next.len() && next[k] == x;
                    assert(prev[k] == x);
                }
            }
        }
        i += 1;
    }
    assert(ips@.subrange(0, ips@.len() as int) =~= ips@);
    out
}

/// The most significant octet comes first: one octet is its own value, and each further one
/// weighs 256 times less than the one before.
pub proof fn law_most_significant_octet_first(b: Seq<u8>, x: u8)
    ensures
        be_nat(seq![x]) == x,
        be_nat(b.push(x)) == be_nat(b) * 256 + x,
        b.len() > 0 ==> be_bytes(be_nat(b), b.len()) == b,
{
    reveal_with_fuel(be_nat, 3);
    assert(seq![x].drop_last() =~= Seq::empty());
    assert(b.push(x).drop_last() =~= b);
    lemma_be_unique(b);
}

/// A network holds the addresses of its family that agree with it in the leading bits that
/// the prefix counts: all of them where it counts none, and only its own where it counts
/// every bit.
pub proof fn law_networks_hold_their_prefix(a: IpNet, ip: IpAddr)
    ensures
        a.addr is V4 != ip is V4 ==> !net_contains(a, ip),
        a.prefix_len == 0 && a.addr is V4 == ip is V4 ==> net_contains(a, ip),
        a.addr is V4 && a.prefix_len == 32 ==> (net_contains(a, ip) <==> a.addr == ip),
        a.addr is V6 && a.prefix_len == 128 ==> (net_contains(a, ip) <==> a.addr == ip),
        match (a.addr, ip) {
            (IpAddr::V4(x), IpAddr::V4(y)) => {
                &&& a.prefix_len == 8 ==> (net_contains(a, ip) <==> x / 0x100_0000 == y
                    / 0x100_0000)
                &&& a.prefix_len == 16 ==> (net_contains(a, ip) <==> x / 0x1_0000 == y / 0x1_0000)
                &&& a.prefix_len == 24 ==> (net_contains(a, ip) <==> x / 0x100 == y / 0x100)
            },
            _ => true,
        },
{
    lemma_pow2_values();
    let n = a.prefix_len as int;
    match (a.addr, ip) {
        (IpAddr::V4(x), IpAddr::V4(y)) => {
            if n <= 32 {
                let d = pow2((32 - n) as nat);
                assert(n == 0 ==> d == 0x1_0000_0000);
                assert(n == 8 ==> d == 0x100_0000);
                assert(n == 16 ==> d == 0x1_0000);
                assert(n == 24 ==> d == 0x100);
                assert(n == 32 ==> d == 1);
                lemma_quotient(x as nat, d);
                lemma_quotient(y as nat, d);
            }
        },
        (IpAddr::V6(x), IpAddr::V6(y)) => {
            if n <= 128 {
                let d = pow2((128 - n) as nat);
                assert(n == 0 ==> d == 0x1_0000_0000_0000_0000_0000_0000_0000_0000);
                assert(n == 128 ==> d == 1);
                lemma_quotient(x as nat, d);
                lemma_quotient(y as nat, d);
            }
        },
        _ => {},
    }
}

proof fn lemma_quotient(x: nat, d: nat)
    ensures
        d == 1 ==> x / d == x,
        d == 0x100 ==> x / d == x / 0x100,
        d == 0x1_0000 ==> x / d == x / 0x1_0000,
        d == 0x100_0000 ==> x / d == x / 0x100_0000,
        d > x ==> x / d == 0,
{
    if d > x {
        assert(x / d == 0) by (nonlinear_arith)
            requires
                d > x,
        ;
    }
    if d == 1 {
        assert(x / d == x) by (nonlinear_arith)
            requires
                d == 1,
        ;
    }
}

proof fn lemma_pow2_values()
    ensures
        pow2(0) == 1,
        pow2(8) == 0x100,
        pow2(16) == 0x1_0000,
        pow2(24) == 0x100_0000,
        pow2(32) == 0x1_0000_0000,
        pow2(128) == 0x1_0000_0000_0000_0000_0000_0000_0000_0000,
{
    assert(pow2(8) == 0x100) by {
        reveal_with_fuel(pow2, 9);
    }
    lemma_pow2_add(8, 8);
    lemma_pow2_add(8, 16);
    lemma_pow2_add(16, 16);
    lemma_pow2_add(32, 32);
    lemma_pow2_add(64, 64);
    let h = pow2(8);
    let w = pow2(16);
    let t = pow2(24);
    let x = pow2(32);
    let y = pow2(64);
    assert(w == 0x1_0000) by (nonlinear_arith)
        requires
            h == 0x100,
            w == h * h,
    ;
    assert(t == 0x100_0000) by (nonlinear_arith)
        requires
            h == 0x100,
            w == 0x1_0000,
            t == h * w,
    ;
    assert(x == 0x1_0000_0000) by (nonlinear_arith)
        requires
            w == 0x1_0000,
            x == w * w,
    ;
    assert(y == 0x1_0000_0000_0000_0000) by (nonlinear_arith)
        requires
            x == 0x1_0000_0000,
            y == x * x,
    ;
    assert(y * y == 0x1_0000_0000_0000_0000_0000_0000_0000_0000) by (nonlinear_arith)
        requires
            y == 0x1_0000_0000_0000_0000,
    ;
}

proof fn lemma_pow2_add(a: nat, b: nat)
    ensures
        pow2(a + b) == pow2(a) * pow2(b),
    decreases a,
{
    if a > 0 {
        lemma_pow2_add((a - 1) as nat, b);
        let x = pow2((a - 1) as nat);
        let y = pow2(b);
        assert((2 * x) * y == 2 * (x * y)) by (nonlinear_arith);
        assert((a - 1) as nat + b == (a + b - 1) as nat);
        assert(pow2(a + b) == 2 * pow2((a + b - 1) as nat));
    } else {
        assert(a + b == b);
        assert(1 * pow2(b) == pow2(b));
    }
}

/// Sorted addresses are those of IPv4 first, and each family by number, each address once.
pub proof fn law_sorted_addresses(s: Seq<IpAddr>, i: int, j: int)
    requires
        ips_sorted(s),
        0 <= i < j < s.len(),
    ensures
        s[i] != s[j],
        s[i] is V6 ==> s[j] is V6,
        match (s[i], s[j]) {
            (IpAddr::V4(a), IpAddr::V4(b)) => a < b,
            (IpAddr::V6(a), IpAddr::V6(b)) => a < b,
            _ => true,
        },
{
}

} // verus!
