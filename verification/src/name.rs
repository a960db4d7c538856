//! Absolute domain names: a list of labels, leftmost first, under the root.

use crate::bytes::{bytes_eq, copy_bytes};
use vstd::prelude::*;

verus! {

/// The mathematical value of a name: its labels, leftmost first.
pub type Labels = Seq<Seq<u8>>;

/// An absolute domain name. The root has no labels.
#[derive(Debug)]
pub struct Name {
    pub labels: Vec<Vec<u8>>,
}

impl View for Name {
    type V = Seq<Seq<u8>>;

    open spec fn view(&self) -> Seq<Seq<u8>> {
        Seq::new(self.labels@.len(), |i: int| self.labels@[i]@)
    }
}

/// ASCII lower case of one byte.
pub open spec fn lower_byte(b: u8) -> u8 {
    if 65 <= b <= 90 {
        (b + 32) as u8
    } else {
        b
    }
}

/// ASCII lower case of a label.
pub open spec fn lower_label(l: Seq<u8>) -> Seq<u8> {
    Seq::new(l.len(), |i: int| lower_byte(l[i]))
}

/// ASCII lower case of every label of a name.
pub open spec fn lower(n: Labels) -> Labels {
    Seq::new(n.len(), |i: int| lower_label(n[i]))
}

/// Names are compared without regard to ASCII case.
pub open spec fn same_name(a: Labels, b: Labels) -> bool {
    lower(a) == lower(b)
}

/// The last `k` labels of a name.
pub open spec fn last_labels(n: Labels, k: int) -> Labels {
    n.subrange(n.len() - k, n.len() as int)
}

/// `name` is `zone` or lies below it.
pub open spec fn in_zone(zone: Labels, name: Labels) -> bool {
    zone.len() <= name.len() && same_name(zone, last_labels(name, zone.len() as int))
}

/// The name without its leftmost label; the root stays as it is.
pub open spec fn parent(n: Labels) -> Labels {
    if n.len() == 0 {
        n
    } else {
        n.drop_first()
    }
}

/// The wildcard label.
pub open spec fn star() -> Seq<u8> {
    seq![42u8]
}

/// The number of labels, a leftmost wildcard label not counted.
pub open spec fn counted_labels(n: Labels) -> nat {
    if n.len() > 0 && n[0] == star() {
        (n.len() - 1) as nat
    } else {
        n.len()
    }
}

/// Lower-casing twice is lower-casing once.
pub proof fn lemma_lower_idempotent(n: Labels)
    ensures
        lower(lower(n)) == lower(n),
        lower(n).len() == n.len(),
{
    assert forall|i: int| 0 <= i < n.len() implies #[trigger] lower(lower(n))[i] == lower(n)[i] by {
        assert(lower_label(lower_label(n[i])) =~= lower_label(n[i]));
    }
    assert(lower(lower(n)) =~= lower(n));
}

/// Lower-casing commutes with taking the last labels.
pub proof fn lemma_lower_last_labels(n: Labels, k: int)
    requires
        0 <= k <= n.len(),
    ensures
        lower(last_labels(n, k)) == last_labels(lower(n), k),
{
    assert(lower(last_labels(n, k)) =~= last_labels(lower(n), k));
}

/// A zone inside a zone holds only names of the outer zone.
pub proof fn lemma_zone_transitive(a: Labels, b: Labels, c: Labels)
    requires
        in_zone(a, b),
        in_zone(b, c),
    ensures
        in_zone(a, c),
{
    lemma_lower_last_labels(b, a.len() as int);
    lemma_lower_last_labels(c, a.len() as int);
    lemma_lower_last_labels(c, b.len() as int);
    assert(lower(b).len() == b.len());
    assert(last_labels(last_labels(lower(c), b.len() as int), a.len() as int) =~= last_labels(
        lower(c),
        a.len() as int,
    ));
}

/// ASCII lower case of one byte.
pub fn lower_u8(b: u8) -> (r: u8)
    ensures
        r == lower_byte(b),
{
    if 65 <= b && b <= 90 {
        b + 32
    } else {
        b
    }
}

/// ASCII lower case of a label.
pub fn lower_bytes(l: &[u8]) -> (r: Vec<u8>)
    ensures
        r@ == lower_label(l@),
{
    let mut out: Vec<u8> = Vec::new();
    let mut i: usize = 0;
    while i < l.len()
        invariant
            i <= l@.len(),
            out@.len() == i,
            forall|j: int| 0 <= j < i ==> out@[j] == lower_byte(l@[j]),
        decreases l@.len() - i,
    {
        out.push(lower_u8(l[i]));
        i += 1;
    }
    assert(out@ =~= lower_label(l@));
    out
}

/// Whether two labels are equal up to ASCII case.
pub fn label_same(a: &[u8], b: &[u8]) -> (r: bool)
    ensures
        r == (lower_label(a@) == lower_label(b@)),
{
    if a.len() != b.len() {
        assert(lower_label(a@).len() != lower_label(b@).len());
        return false;
    }
    let mut i: usize = 0;
    while i < a.len()
        invariant
            a@.len() == b@.len(),
            i <= a@.len(),
            forall|j: int| 0 <= j < i ==> lower_byte(a@[j]) == lower_byte(b@[j]),
        decreases a@.len() - i,
    {
        if lower_u8(a[i]) != lower_u8(b[i]) {
            assert(lower_label(a@)[i as int] != lower_label(b@)[i as int]);
            return false;
        }
        i += 1;
    }
    assert(lower_label(a@) =~= lower_label(b@));
    true
}

impl Clone for Name {
    fn clone(&self) -> (r: Name)
        ensures
            r@ == self@,
    {
        self.trim_to(self.labels.len())
    }
}

impl Name {
    /// The root name.
    pub fn root() -> (r: Name)
        ensures
            r@ == Seq::<Seq<u8>>::empty(),
    {
        let r = Name { labels: Vec::new() };
        assert(r@ =~= Seq::<Seq<u8>>::empty());
        r
    }

    /// Whether this is the root.
    pub fn is_root(&self) -> (r: bool)
        ensures
            r == (self@.len() == 0),
    {
        self.labels.len() == 0
    }

    /// The name in ASCII lower case.
    pub fn to_lowercase(&self) -> (r: Name)
        ensures
            r@ == lower(self@),
    {
        let mut labels: Vec<Vec<u8>> = Vec::new();
        let mut i: usize = 0;
        while i < self.labels.len()
            invariant
                i <= self.labels@.len(),
                labels@.len() == i,
                forall|j: int| 0 <= j < i ==> #[trigger] labels@[j]@ == lower_label(self@[j]),
            decreases self.labels@.len() - i,
        {
            labels.push(lower_bytes(self.labels[i].as_slice()));
            i += 1;
        }
        let r = Name { labels };
        assert(r@ =~= lower(self@));
        r
    }

    /// Whether the two names are equal, ASCII case aside.
    pub fn same(&self, other: &Name) -> (r: bool)
        ensures
            r == same_name(self@, other@),
    {
        if self.labels.len() != other.labels.len() {
            assert(lower(self@).len() != lower(other@).len());
            return false;
        }
        self.same_tail(other)
    }

    /// Whether the labels of this name are, ASCII case aside, the last labels of `other`.
    fn same_tail(&self, other: &Name) -> (r: bool)
        requires
            self@.len() <= other@.len(),
        ensures
            r == same_name(self@, last_labels(other@, self@.len() as int)),
            self@.len() == other@.len() ==> r == same_name(self@, other@),
    {
        let n: usize = self.labels.len();
        let total: usize = other.labels.len();
        let off: usize = total - n;
        let ghost tail = last_labels(other@, n as int);
        proof {
            if n == other@.len() {
                assert(tail =~= other@);
            }
        }
        let mut i: usize = 0;
        while i < n
            invariant
                i <= n,
                n == self.labels@.len(),
                off + n == total,
                total == other.labels@.len(),
                tail == last_labels(other@, n as int),
                n == other@.len() ==> tail == other@,
                forall|j: int| 0 <= j < i ==> #[trigger] lower_label(self@[j]) == lower_label(tail[j]),
            decreases n - i,
        {
            assert(tail[i as int] == other.labels@[off + i]@);
            if !label_same(self.labels[i].as_slice(), other.labels[off + i].as_slice()) {
                assert(lower(self@)[i as int] != lower(tail)[i as int]);
                return false;
            }
            i += 1;
        }
        assert(lower(self@) =~= lower(tail));
        true
    }

    /// Whether `name` is this name or lies below it.
    pub fn zone_of(&self, name: &Name) -> (r: bool)
        ensures
            r == in_zone(self@, name@),
    {
        self.labels.len() <= name.labels.len() && self.same_tail(name)
    }

    /// The number of labels, a leftmost wildcard label not counted.
    pub fn num_labels(&self) -> (r: usize)
        ensures
            r == counted_labels(self@),
    {
        let n: usize = self.labels.len();
        if n > 0 && self.is_wildcard() {
            n - 1
        } else {
            n
        }
    }

    /// Whether the leftmost label is the wildcard.
    pub fn is_wildcard(&self) -> (r: bool)
        ensures
            r == (self@.len() > 0 && self@[0] == star()),
    {
        if self.labels.len() == 0 {
            return false;
        }
        let l: &Vec<u8> = &self.labels[0];
        let r = l.len() == 1 && l[0] == 42;
        proof {
            if r {
                assert(l@ =~= star());
            }
        }
        r
    }

    /// The name cut down to its last `k` labels; a shorter name is returned whole.
    pub fn trim_to(&self, k: usize) -> (r: Name)
        ensures
            r@ == (if k > self@.len() {
                self@
            } else {
                last_labels(self@, k as int)
            }),
            k == self@.len() ==> r@ == self@,
    {
        let n: usize = self.labels.len();
        let from: usize = if k > n {
            0
        } else {
            n - k
        };
        let mut labels: Vec<Vec<u8>> = Vec::new();
        let mut i: usize = from;
        while i < n
            invariant
                from <= i <= n,
                n == self.labels@.len(),
                labels@.len() == i - from,
                forall|j: int| 0 <= j < i - from ==> #[trigger] labels@[j]@ == self@[from + j],
            decreases n - i,
        {
            labels.push(copy_bytes(self.labels[i].as_slice()));
            i += 1;
        }
        let r = Name { labels };
        assert(r@ =~= self@.subrange(from as int, n as int));
        assert(self@.subrange(0, n as int) =~= self@);
        r
    }

    /// The name without its leftmost label.
    pub fn base_name(&self) -> (r: Name)
        ensures
            r@ == parent(self@),
    {
        if self.labels.len() == 0 {
            self.clone()
        } else {
            let r = self.trim_to(self.labels.len() - 1);
            assert(r@ =~= parent(self@));
            r
        }
    }

    /// The name with one more label in front.
    pub fn prepend(&self, label: &[u8]) -> (r: Name)
        ensures
            r@ == seq![label@] + self@,
    {
        let mut labels: Vec<Vec<u8>> = Vec::new();
        labels.push(copy_bytes(label));
        let mut i: usize = 0;
        while i < self.labels.len()
            invariant
                i <= self.labels@.len(),
                labels@.len() == i + 1,
                labels@[0]@ == label@,
                forall|j: int| 0 <= j < i ==> #[trigger] labels@[j + 1]@ == self@[j],
            decreases self.labels@.len() - i,
        {
            labels.push(copy_bytes(self.labels[i].as_slice()));
            i += 1;
        }
        let r = Name { labels };
        assert forall|j: int| 0 <= j < r@.len() implies r@[j] == (seq![label@] + self@)[j] by {
            if j > 0 {
                assert(r.labels@[(j - 1) + 1]@ == self@[j - 1]);
            }
        }
        assert(r@ =~= seq![label@] + self@);
        r
    }

    /// Whether the two names have exactly the same bytes, case included.
    pub fn same_case(&self, other: &Name) -> (r: bool)
        ensures
            r == (self@ == other@),
    {
        if self.labels.len() != other.labels.len() {
            assert(self@.len() != other@.len());
            return false;
        }
        let mut i: usize = 0;
        while i < self.labels.len()
            invariant
                i <= self.labels@.len(),
                self.labels@.len() == other.labels@.len(),
                forall|j: int| 0 <= j < i ==> #[trigger] self@[j] == other@[j],
            decreases self.labels@.len() - i,
        {
            if !bytes_eq(self.labels[i].as_slice(), other.labels[i].as_slice()) {
                assert(self@[i as int] != other@[i as int]);
                return false;
            }
            i += 1;
        }
        assert(self@ =~= other@);
        true
    }
}

/// Two octets that differ in nothing but the case of an ASCII letter.
pub open spec fn same_letter(a: u8, b: u8) -> bool {
    ||| a == b
    ||| 65 <= a <= 90 && b == a + 32
    ||| 65 <= b <= 90 && a == b + 32
}

/// Names are the same where they have the same labels, compared octet for octet without the
/// case of ASCII letters, and otherwise not.
pub proof fn law_same_name_ignores_case_alone(a: Labels, b: Labels)
    ensures
        same_name(a, b) <==> {
            &&& a.len() == b.len()
            &&& forall|i: int| 0 <= i < a.len() ==> (#[trigger] a[i]).len() == b[i].len()
            &&& forall|i: int, j: int|
                0 <= i < a.len() && 0 <= j < a[i].len() ==> same_letter(
                    #[trigger] a[i][j],
                    b[i][j],
                )
        },
{
    if same_name(a, b) {
        assert(lower(a).len() == lower(b).len());
        assert forall|i: int| 0 <= i < a.len() implies (#[trigger] a[i]).len() == b[i].len() by {
            assert(lower(a)[i] == lower(b)[i]);
            assert(lower_label(a[i]).len() == lower_label(b[i]).len());
        }
        assert forall|i: int, j: int| 0 <= i < a.len() && 0 <= j < a[i].len() implies same_letter(
            #[trigger] a[i][j],
            b[i][j],
        ) by {
            assert(lower(a)[i] == lower(b)[i]);
            assert(lower_label(a[i])[j] == lower_label(b[i])[j]);
        }
    }
    let alike = a.len() == b.len() && (forall|i: int|
        0 <= i < a.len() ==> (#[trigger] a[i]).len() == b[i].len()) && (forall|i: int, j: int|
        0 <= i < a.len() && 0 <= j < a[i].len() ==> same_letter(#[trigger] a[i][j], b[i][j]));
    if alike {
        assert forall|i: int| 0 <= i < a.len() implies lower(a)[i] == #[trigger] lower(b)[i] by {
            assert(a[i].len() == b[i].len());
            assert forall|j: int| 0 <= j < a[i].len() implies lower_label(a[i])[j]
                == #[trigger] lower_label(b[i])[j] by {
                assert(same_letter(a[i][j], b[i][j]));
            }
            assert(lower_label(a[i]) =~= lower_label(b[i]));
        }
        assert(lower(a) =~= lower(b));
    }
}

/// A name lies in a zone exactly where the zone's labels, without case, are its last ones.
pub proof fn law_zone_is_a_suffix(zone: Labels, name: Labels)
    ensures
        in_zone(zone, name) <==> exists|front: Labels| #[trigger] same_name(front + zone, name),
{
    if in_zone(zone, name) {
        let front = name.subrange(0, name.len() - zone.len());
        let end = last_labels(name, zone.len() as int);
        assert(front + end =~= name);
        assert(lower(front + zone) =~= lower(front) + lower(zone));
        assert(lower(front + end) =~= lower(front) + lower(end));
        assert(same_name(front + zone, name));
    }
    if exists|front: Labels| #[trigger] same_name(front + zone, name) {
        let front = choose|front: Labels| #[trigger] same_name(front + zone, name);
        assert(lower(front + zone).len() == lower(name).len());
        lemma_lower_last_labels(name, zone.len() as int);
        lemma_lower_last_labels(front + zone, zone.len() as int);
        assert(last_labels(front + zone, zone.len() as int) =~= zone);
    }
}

/// Every name lies in the root and in its own zone, and below its parent, which has one
/// label less: all but the first.
pub proof fn law_parent_drops_the_first_label(n: Labels)
    ensures
        in_zone(Seq::empty(), n),
        in_zone(n, n),
        in_zone(parent(n), n),
        n.len() > 0 ==> n == seq![n[0]] + parent(n),
        n.len() == 0 ==> parent(n) == n,
{
    assert(last_labels(n, 0) =~= Seq::<Seq<u8>>::empty());
    assert(last_labels(n, n.len() as int) =~= n);
    if n.len() > 0 {
        assert(last_labels(n, n.len() - 1) =~= parent(n));
        assert(n =~= seq![n[0]] + parent(n));
    }
}

/// The labels of a name are counted without a leading asterisk.
pub proof fn law_asterisk_is_not_counted(n: Labels, label: Seq<u8>)
    ensures
        label == seq![42u8] ==> counted_labels(seq![label] + n) == n.len(),
        label != seq![42u8] ==> counted_labels(seq![label] + n) == n.len() + 1,
        counted_labels(Seq::empty()) == 0,
{
    assert((seq![label] + n)[0] == label);
}

/// An asterisk has no case.
pub proof fn lemma_star_in_any_case(a: Seq<u8>, b: Seq<u8>)
    requires
        lower_label(a) == lower_label(b),
    ensures
        a == star() <==> b == star(),
{
    assert(lower_label(a).len() == a.len());
    assert(lower_label(b).len() == b.len());
    if a.len() == 1 {
        assert(lower_label(a)[0] == lower_byte(a[0]));
        assert(lower_label(b)[0] == lower_byte(b[0]));
        if a == star() {
            assert(b =~= star());
        }
        if b == star() {
            assert(a =~= star());
        }
    }
}

} // verus!
