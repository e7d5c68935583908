//! Facts about sequences that several parts of the library use.

use vstd::prelude::*;

verus! {

/// The index of the first element of `s` that satisfies `wanted`, or
/// `s.len()` where none does.
pub open spec fn first_where<A>(s: Seq<A>, wanted: spec_fn(A) -> bool) -> int
    decreases s.len(),
{
    if s.len() == 0 {
        0
    } else if wanted(s.first()) {
        0
    } else {
        1 + first_where(s.drop_first(), wanted)
    }
}

/// `first_where` is the least index at which `wanted` holds.
pub proof fn lemma_first_where<A>(s: Seq<A>, wanted: spec_fn(A) -> bool)
    ensures
        0 <= first_where(s, wanted) <= s.len(),
        first_where(s, wanted) < s.len() ==> wanted(s[first_where(s, wanted)]),
        forall|j: int| 0 <= j < first_where(s, wanted) ==> !wanted(#[trigger] s[j]),
    decreases s.len(),
{
    if s.len() > 0 && !wanted(s.first()) {
        let rest = s.drop_first();
        lemma_first_where(rest, wanted);
        assert forall|j: int| 0 <= j < first_where(s, wanted) implies !wanted(#[trigger] s[j]) by {
            if j > 0 {
                assert(s[j] == rest[j - 1]);
            }
        }
    }
}

/// An index with the two properties of `first_where` is `first_where`.
pub proof fn lemma_first_where_is<A>(s: Seq<A>, wanted: spec_fn(A) -> bool, p: int)
    requires
        0 <= p <= s.len(),
        p < s.len() ==> wanted(s[p]),
        forall|j: int| 0 <= j < p ==> !wanted(#[trigger] s[j]),
    ensures
        first_where(s, wanted) == p,
{
    lemma_first_where(s, wanted);
    let q = first_where(s, wanted);
    if q < p {
        assert(!wanted(s[q]));
    } else if p < q {
        assert(!wanted(s[p]));
    }
}

/// Filtering one element more either adds that element or changes nothing.
pub proof fn lemma_filter_step<A>(s: Seq<A>, keep: spec_fn(A) -> bool, i: int)
    requires
        0 <= i < s.len(),
    ensures
        s.take(i + 1).filter(keep) == if keep(s[i]) {
            s.take(i).filter(keep).push(s[i])
        } else {
            s.take(i).filter(keep)
        },
{
    reveal(Seq::filter);
    assert(s.take(i + 1).drop_last() =~= s.take(i));
}

} // verus!
