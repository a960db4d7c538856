//! Lists: what is picked out of one, and how the picks relate to the list.

use vstd::prelude::*;

verus! {

/// What is picked out of a list is picked from all but its last item, and then from that.
pub proof fn lemma_pick_last<A, B>(s: Seq<A>, p: spec_fn(A) -> bool, f: spec_fn(A) -> B)
    requires
        s.len() > 0,
    ensures
        s.filter(p).map_values(f) == (if p(s.last()) {
            s.drop_last().filter(p).map_values(f).push(f(s.last()))
        } else {
            s.drop_last().filter(p).map_values(f)
        }),
{
    reveal(Seq::filter);
    if p(s.last()) {
        assert(s.filter(p) == s.drop_last().filter(p).push(s.last()));
        assert(s.filter(p).map_values(f) =~= s.drop_last().filter(p).map_values(f).push(
            f(s.last()),
        ));
    }
}

/// Nothing is picked out of the empty list.
pub proof fn lemma_pick_none<A, B>(s: Seq<A>, p: spec_fn(A) -> bool, f: spec_fn(A) -> B)
    requires
        s.len() == 0,
    ensures
        s.filter(p).map_values(f) == Seq::<B>::empty(),
{
    reveal(Seq::filter);
    assert(s.filter(p).map_values(f) =~= Seq::<B>::empty());
}

/// The same for picks that are taken as they are.
pub proof fn lemma_filter_last<A>(s: Seq<A>, p: spec_fn(A) -> bool)
    ensures
        s.len() == 0 ==> s.filter(p) == Seq::<A>::empty(),
        s.len() > 0 ==> s.filter(p) == (if p(s.last()) {
            s.drop_last().filter(p).push(s.last())
        } else {
            s.drop_last().filter(p)
        }),
{
    reveal(Seq::filter);
    if s.len() == 0 {
        assert(s.filter(p) =~= Seq::<A>::empty());
    }
}

} // verus!
