//! The first element of a sequence that meets a condition.

use vstd::prelude::*;

verus! {

/// The index of the first element that meets `wanted`, if one does.
pub open spec fn first_index<A>(s: Seq<A>, wanted: spec_fn(A) -> bool) -> Option<int>
    decreases s.len(),
{
    if s.len() == 0 {
        None
    } else {
        match first_index(s.drop_last(), wanted) {
            Some(i) => Some(i),
            None => if wanted(s.last()) {
                Some(s.len() - 1)
            } else {
                None
            },
        }
    }
}

/// What `first_index` returns meets the condition and is the first to do
/// so; where it returns nothing, no element meets it.
pub proof fn lemma_first_index<A>(s: Seq<A>, wanted: spec_fn(A) -> bool)
    ensures
        first_index(s, wanted) matches Some(i) ==> {
            &&& 0 <= i < s.len()
            &&& wanted(s[i])
            &&& forall|j: int| 0 <= j < i ==> !wanted(#[trigger] s[j])
        },
        first_index(s, wanted) is None ==> forall|j: int| 0 <= j < s.len() ==> !wanted(#[trigger] s[j]),
    decreases s.len(),
{
    if s.len() > 0 {
        let front = s.drop_last();
        lemma_first_index(front, wanted);
        assert(forall|j: int| 0 <= j < front.len() ==> front[j] == s[j]);
        assert(s.last() == s[s.len() - 1]);
    }
}

/// An element that meets the condition, with none before it that does, is
/// what `first_index` returns.
pub proof fn lemma_first_index_is<A>(s: Seq<A>, wanted: spec_fn(A) -> bool, i: int)
    requires
        0 <= i < s.len(),
        wanted(s[i]),
        forall|j: int| 0 <= j < i ==> !wanted(#[trigger] s[j]),
    ensures
        first_index(s, wanted) == Some(i),
{
    lemma_first_index(s, wanted);
    match first_index(s, wanted) {
        Some(k) => {
            if k < i {
                assert(!wanted(s[k]));
            }
        },
        None => {
            assert(!wanted(s[i]));
        },
    }
}

/// Where no element meets the condition, `first_index` returns nothing.
pub proof fn lemma_first_index_none<A>(s: Seq<A>, wanted: spec_fn(A) -> bool)
    requires
        forall|j: int| 0 <= j < s.len() ==> !wanted(#[trigger] s[j]),
    ensures
        first_index(s, wanted) is None,
{
    lemma_first_index(s, wanted);
    if first_index(s, wanted) is Some {
        assert(wanted(s[first_index(s, wanted)->0]));
    }
}

/// Appending an element leaves an earlier find as it is.
pub proof fn lemma_first_index_push<A>(s: Seq<A>, wanted: spec_fn(A) -> bool, x: A)
    ensures
        first_index(s.push(x), wanted) == match first_index(s, wanted) {
            Some(i) => Some(i),
            None => if wanted(x) {
                Some(s.len() as int)
            } else {
                None
            },
        },
{
    assert(s.push(x).drop_last() == s);
}

} // verus!
