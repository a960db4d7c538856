//! Canonical order of names (RFC 4034, section 6.1): labels are compared from the root
//! down, as lower-cased byte strings.

use crate::name::{lower, lower_byte, lower_label, lower_u8, same_name, Labels, Name};
use vstd::prelude::*;

verus! {

/// Sign of the comparison of two numbers.
pub open spec fn sign(a: int, b: int) -> int {
    if a < b {
        -1
    } else if a > b {
        1
    } else {
        0
    }
}

/// Order of two byte strings from position `i` on, bytes mapped to lower case.
pub open spec fn label_order(a: Seq<u8>, b: Seq<u8>, i: int) -> int
    decreases a.len() - i,
{
    if i < 0 || i >= a.len() || i >= b.len() {
        sign(a.len() as int, b.len() as int)
    } else if lower_byte(a[i]) != lower_byte(b[i]) {
        sign(lower_byte(a[i]) as int, lower_byte(b[i]) as int)
    } else {
        label_order(a, b, i + 1)
    }
}

/// Order of two names of which the last `k` labels are equal.
pub open spec fn name_order_from(a: Labels, b: Labels, k: int) -> int
    decreases a.len() - k,
{
    if k < 0 || k >= a.len() || k >= b.len() {
        sign(a.len() as int, b.len() as int)
    } else {
        let o = label_order(a[a.len() - 1 - k], b[b.len() - 1 - k], 0);
        if o != 0 {
            o
        } else {
            name_order_from(a, b, k + 1)
        }
    }
}

/// Canonical order of two names: negative, zero or positive.
pub open spec fn name_order(a: Labels, b: Labels) -> int {
    name_order_from(a, b, 0)
}

/// Order of two byte strings, byte by byte.
pub open spec fn bytes_order(a: Seq<u8>, b: Seq<u8>, i: int) -> int
    decreases a.len() - i,
{
    if i < 0 || i >= a.len() || i >= b.len() {
        sign(a.len() as int, b.len() as int)
    } else if a[i] != b[i] {
        sign(a[i] as int, b[i] as int)
    } else {
        bytes_order(a, b, i + 1)
    }
}

/// Whether the first byte string comes before the second.
pub open spec fn bytes_before(a: Seq<u8>, b: Seq<u8>) -> bool {
    bytes_order(a, b, 0) < 0
}

fn sign_of(a: usize, b: usize) -> (r: i8)
    ensures
        r == sign(a as int, b as int),
{
    if a < b {
        -1
    } else if a > b {
        1
    } else {
        0
    }
}

/// Order of two labels.
pub fn compare_labels(a: &[u8], b: &[u8]) -> (r: i8)
    ensures
        r == label_order(a@, b@, 0),
        -1 <= r <= 1,
{
    let mut i: usize = 0;
    while i < a.len() && i < b.len()
        invariant
            i <= a@.len(),
            i <= b@.len(),
            label_order(a@, b@, 0) == label_order(a@, b@, i as int),
        decreases a@.len() - i,
    {
        let x: u8 = lower_u8(a[i]);
        let y: u8 = lower_u8(b[i]);
        if x != y {
            return sign_of(x as usize, y as usize);
        }
        i += 1;
    }
    sign_of(a.len(), b.len())
}

/// Whether the first byte string comes before the second.
pub fn bytes_lt(a: &[u8], b: &[u8]) -> (r: bool)
    ensures
        r == bytes_before(a@, b@),
{
    let mut i: usize = 0;
    while i < a.len() && i < b.len()
        invariant
            i <= a@.len(),
            i <= b@.len(),
            bytes_order(a@, b@, 0) == bytes_order(a@, b@, i as int),
        decreases a@.len() - i,
    {
        if a[i] != b[i] {
            return a[i] < b[i];
        }
        i += 1;
    }
    a.len() < b.len()
}

impl Name {
    /// Canonical order of two names.
    pub fn order(&self, other: &Name) -> (r: i8)
        ensures
            r == name_order(self@, other@),
            -1 <= r <= 1,
    {
        let n: usize = self.labels.len();
        let m: usize = other.labels.len();
        let mut k: usize = 0;
        while k < n && k < m
            invariant
                k <= n,
                k <= m,
                n == self.labels@.len(),
                m == other.labels@.len(),
                name_order_from(self@, other@, 0) == name_order_from(self@, other@, k as int),
            decreases n - k,
        {
            let o: i8 = compare_labels(
                self.labels[n - 1 - k].as_slice(),
                other.labels[m - 1 - k].as_slice(),
            );
            if o != 0 {
                return o;
            }
            k += 1;
        }
        sign_of(n, m)
    }
}

/// A byte string comes before no byte string that is equal to it.
pub proof fn lemma_bytes_order_irreflexive(a: Seq<u8>, i: int)
    requires
        0 <= i <= a.len(),
    ensures
        bytes_order(a, a, i) == 0,
    decreases a.len() - i,
{
    if i < a.len() {
        lemma_bytes_order_irreflexive(a, i + 1);
    }
}

/// Byte strings that differ come one before the other.
pub proof fn lemma_bytes_order_antisymmetric(a: Seq<u8>, b: Seq<u8>, i: int)
    requires
        0 <= i,
    ensures
        bytes_order(a, b, i) == -bytes_order(b, a, i),
    decreases a.len() - i,
{
    if i < a.len() && i < b.len() && a[i] == b[i] {
        lemma_bytes_order_antisymmetric(a, b, i + 1);
    }
}

/// The order of names has no cycle of two: what comes before does not come after.
pub proof fn lemma_name_order_antisymmetric(a: Labels, b: Labels, k: int)
    requires
        0 <= k,
    ensures
        name_order_from(a, b, k) == -name_order_from(b, a, k),
    decreases a.len() - k,
{
    if k < a.len() && k < b.len() {
        lemma_label_order_antisymmetric(a[a.len() - 1 - k], b[b.len() - 1 - k], 0);
        lemma_name_order_antisymmetric(a, b, k + 1);
    }
}

proof fn lemma_label_order_antisymmetric(a: Seq<u8>, b: Seq<u8>, i: int)
    requires
        0 <= i,
    ensures
        label_order(a, b, i) == -label_order(b, a, i),
    decreases a.len() - i,
{
    if i < a.len() && i < b.len() && lower_byte(a[i]) == lower_byte(b[i]) {
        lemma_label_order_antisymmetric(a, b, i + 1);
    }
}

proof fn lemma_label_order_zero(a: Seq<u8>, b: Seq<u8>, i: int)
    requires
        0 <= i <= a.len(),
        i <= b.len(),
    ensures
        label_order(a, b, i) == 0 <==> a.len() == b.len() && forall|j: int|
            i <= j < a.len() ==> lower_byte(#[trigger] a[j]) == lower_byte(b[j]),
    decreases a.len() - i,
{
    if i < a.len() && i < b.len() {
        lemma_label_order_zero(a, b, i + 1);
        if label_order(a, b, i) == 0 {
            assert forall|j: int| i <= j < a.len() implies lower_byte(#[trigger] a[j]) == lower_byte(
                b[j],
            ) by {}
        } else if a.len() == b.len() && lower_byte(a[i]) == lower_byte(b[i]) {
            let j = choose|j: int|
                i + 1 <= j < a.len() && lower_byte(#[trigger] a[j]) != lower_byte(b[j]);
            assert(i <= j < a.len());
        }
    }
}

proof fn lemma_label_order_lower(a: Seq<u8>, b: Seq<u8>)
    ensures
        label_order(a, b, 0) == 0 <==> lower_label(a) == lower_label(b),
{
    lemma_label_order_zero(a, b, 0);
    if label_order(a, b, 0) == 0 {
        assert(lower_label(a) =~= lower_label(b));
    }
    if lower_label(a) == lower_label(b) {
        assert(lower_label(a).len() == lower_label(b).len());
        assert forall|j: int| 0 <= j < a.len() implies lower_byte(#[trigger] a[j]) == lower_byte(
            b[j],
        ) by {
            assert(lower_label(a)[j] == lower_label(b)[j]);
        }
    }
}

proof fn lemma_name_order_zero(a: Labels, b: Labels, k: int)
    requires
        0 <= k <= a.len(),
        k <= b.len(),
    ensures
        name_order_from(a, b, k) == 0 <==> a.len() == b.len() && forall|j: int|
            0 <= j < a.len() - k ==> lower_label(#[trigger] a[j]) == lower_label(b[j]),
    decreases a.len() - k,
{
    if k < a.len() && k < b.len() {
        lemma_name_order_zero(a, b, k + 1);
        lemma_label_order_lower(a[a.len() - 1 - k], b[b.len() - 1 - k]);
    }
}

/// Two names stand at the same place in the order exactly where they are the same name.
pub proof fn law_equal_places_are_the_same_name(a: Labels, b: Labels)
    ensures
        name_order(a, b) == 0 <==> same_name(a, b),
{
    lemma_name_order_zero(a, b, 0);
    if name_order(a, b) == 0 {
        assert(lower(a) =~= lower(b));
    }
    if same_name(a, b) {
        assert(lower(a).len() == lower(b).len());
        assert forall|j: int| 0 <= j < a.len() implies lower_label(#[trigger] a[j]) == lower_label(
            b[j],
        ) by {
            assert(lower(a)[j] == lower(b)[j]);
        }
    }
}

proof fn lemma_label_order_transitive(a: Seq<u8>, b: Seq<u8>, c: Seq<u8>, i: int)
    requires
        0 <= i,
        label_order(a, b, i) <= 0,
        label_order(b, c, i) <= 0,
        i <= a.len() && i <= b.len() && i <= c.len(),
    ensures
        label_order(a, c, i) <= 0,
        label_order(a, c, i) == 0 ==> label_order(a, b, i) == 0 && label_order(b, c, i) == 0,
        label_order(a, b, i) == 0 && label_order(b, c, i) == 0 ==> label_order(a, c, i) == 0,
    decreases a.len() - i,
{
    if i < a.len() && i < b.len() && i < c.len() && lower_byte(a[i]) == lower_byte(b[i])
        && lower_byte(b[i]) == lower_byte(c[i]) {
        lemma_label_order_transitive(a, b, c, i + 1);
    }
}

proof fn lemma_name_order_transitive(a: Labels, b: Labels, c: Labels, k: int)
    requires
        0 <= k <= a.len(),
        k <= b.len() && k <= c.len(),
        name_order_from(a, b, k) <= 0,
        name_order_from(b, c, k) <= 0,
    ensures
        name_order_from(a, c, k) <= 0,
        name_order_from(a, c, k) == 0 ==> name_order_from(a, b, k) == 0 && name_order_from(b, c, k)
            == 0,
        name_order_from(a, b, k) == 0 && name_order_from(b, c, k) == 0 ==> name_order_from(a, c, k)
            == 0,
    decreases a.len() - k,
{
    if k < a.len() && k < b.len() && k < c.len() {
        let x = a[a.len() - 1 - k];
        let y = b[b.len() - 1 - k];
        let z = c[c.len() - 1 - k];
        lemma_label_order_transitive(x, y, z, 0);
        if label_order(x, y, 0) == 0 && label_order(y, z, 0) == 0 {
            lemma_name_order_transitive(a, b, c, k + 1);
        }
    }
}

/// The order of names is one: of two names one comes first unless they are the same, and what
/// comes before one that comes before a third comes before that.
pub proof fn law_names_are_ordered(a: Labels, b: Labels, c: Labels)
    ensures
        name_order(a, b) == -name_order(b, a),
        name_order(a, b) <= 0 && name_order(b, c) <= 0 ==> name_order(a, c) <= 0,
        name_order(a, b) < 0 && name_order(b, c) <= 0 ==> name_order(a, c) < 0,
        name_order(a, b) <= 0 && name_order(b, c) < 0 ==> name_order(a, c) < 0,
{
    lemma_name_order_antisymmetric(a, b, 0);
    if name_order(a, b) <= 0 && name_order(b, c) <= 0 {
        lemma_name_order_transitive(a, b, c, 0);
    }
}

/// Names are compared from the last label on: where one name runs out it comes first, and
/// where the last labels differ they decide.
pub proof fn law_last_labels_decide(a: Labels, b: Labels)
    ensures
        a.len() == 0 && b.len() > 0 ==> name_order(a, b) < 0,
        a.len() > 0 && b.len() > 0 && label_order(a.last(), b.last(), 0) != 0 ==> name_order(a, b)
            == label_order(a.last(), b.last(), 0),
        a.len() > 0 && b.len() > 0 && label_order(a.last(), b.last(), 0) == 0 ==> name_order(a, b)
            == name_order(a.drop_last(), b.drop_last()),
{
    if a.len() > 0 && b.len() > 0 {
        lemma_name_order_shift(a, b, 0);
    }
}

proof fn lemma_name_order_shift(a: Labels, b: Labels, k: int)
    requires
        a.len() > 0,
        b.len() > 0,
        0 <= k,
    ensures
        name_order_from(a, b, k + 1) == name_order_from(a.drop_last(), b.drop_last(), k),
    decreases a.len() - k,
{
    if k + 1 < a.len() && k + 1 < b.len() {
        lemma_name_order_shift(a, b, k + 1);
    }
}

/// Labels, and octet strings, are compared from the first octet on: the first that differs
/// decides, labels taken without case, and where one runs out it comes first.
pub proof fn law_first_difference_decides(a: Seq<u8>, b: Seq<u8>, k: int)
    requires
        0 <= k <= a.len(),
        k <= b.len(),
    ensures
        (forall|j: int| 0 <= j < k ==> lower_byte(#[trigger] a[j]) == lower_byte(b[j])) ==> {
            &&& k < a.len() && k < b.len() && lower_byte(a[k]) < lower_byte(b[k]) ==> label_order(
                a,
                b,
                0,
            ) < 0
            &&& k == a.len() && k < b.len() ==> label_order(a, b, 0) < 0
        },
        (forall|j: int| 0 <= j < k ==> #[trigger] a[j] == b[j]) ==> {
            &&& k < a.len() && k < b.len() && a[k] < b[k] ==> bytes_before(a, b)
            &&& k == a.len() && k < b.len() ==> bytes_before(a, b)
        },
{
    if forall|j: int| 0 <= j < k ==> lower_byte(#[trigger] a[j]) == lower_byte(b[j]) {
        lemma_label_order_skip(a, b, 0, k);
    }
    if forall|j: int| 0 <= j < k ==> #[trigger] a[j] == b[j] {
        lemma_bytes_order_skip(a, b, 0, k);
    }
}

proof fn lemma_label_order_skip(a: Seq<u8>, b: Seq<u8>, i: int, k: int)
    requires
        0 <= i <= k <= a.len(),
        k <= b.len(),
        forall|j: int| i <= j < k ==> lower_byte(#[trigger] a[j]) == lower_byte(b[j]),
    ensures
        label_order(a, b, i) == label_order(a, b, k),
    decreases k - i,
{
    if i < k {
        lemma_label_order_skip(a, b, i + 1, k);
    }
}

proof fn lemma_bytes_order_skip(a: Seq<u8>, b: Seq<u8>, i: int, k: int)
    requires
        0 <= i <= k <= a.len(),
        k <= b.len(),
        forall|j: int| i <= j < k ==> #[trigger] a[j] == b[j],
    ensures
        bytes_order(a, b, i) == bytes_order(a, b, k),
    decreases k - i,
{
    if i < k {
        lemma_bytes_order_skip(a, b, i + 1, k);
    }
}

} // verus!
