//! Finding the first item of a sequence that satisfies a predicate.

use vstd::prelude::*;

verus! {

/// Index of the first item of `s` that satisfies `pred`, or -1 when none does.
pub open spec fn first_index<T>(s: Seq<T>, pred: spec_fn(T) -> bool) -> int
    decreases s.len(),
{
    if s.len() == 0 {
        -1
    } else if pred(s[0]) {
        0
    } else {
        let r = first_index(s.drop_first(), pred);
        if r < 0 {
            -1
        } else {
            r + 1
        }
    }
}

/// The first satisfying item is where a left-to-right scan stops.
pub proof fn lemma_first_index_found<T>(s: Seq<T>, pred: spec_fn(T) -> bool, i: int)
    requires
        0 <= i < s.len(),
        pred(s[i]),
        forall|j: int| 0 <= j < i ==> !pred(#[trigger] s[j]),
    ensures
        first_index(s, pred) == i,
    decreases i,
{
    if i > 0 {
        assert forall|j: int| 0 <= j < i - 1 implies !pred(#[trigger] s.drop_first()[j]) by {
            assert(s.drop_first()[j] == s[j + 1]);
        }
        lemma_first_index_found(s.drop_first(), pred, i - 1);
    }
}

/// No item satisfies the predicate.
pub proof fn lemma_first_index_absent<T>(s: Seq<T>, pred: spec_fn(T) -> bool)
    requires
        forall|j: int| 0 <= j < s.len() ==> !pred(#[trigger] s[j]),
    ensures
        first_index(s, pred) == -1,
    decreases s.len(),
{
    if s.len() > 0 {
        assert forall|j: int| 0 <= j < s.len() - 1 implies !pred(#[trigger] s.drop_first()[j]) by {
            assert(s.drop_first()[j] == s[j + 1]);
        }
        lemma_first_index_absent(s.drop_first(), pred);
    }
}

/// What `first_index` tells: the item found satisfies the predicate and no
/// earlier one does; -1 means that no item does.
pub proof fn lemma_first_index_meaning<T>(s: Seq<T>, pred: spec_fn(T) -> bool)
    ensures
        -1 <= first_index(s, pred) < s.len(),
        first_index(s, pred) >= 0 ==> pred(s[first_index(s, pred)]),
        forall|j: int| 0 <= j < s.len() && (first_index(s, pred) < 0 || j < first_index(s, pred)) ==> !pred(#[trigger] s[j]),
    decreases s.len(),
{
    if s.len() > 0 && !pred(s[0]) {
        lemma_first_index_meaning(s.drop_first(), pred);
        assert forall|j: int| 0 <= j < s.len() && (first_index(s, pred) < 0 || j < first_index(s, pred)) implies !pred(#[trigger] s[j]) by {
            if j > 0 {
                assert(s[j] == s.drop_first()[j - 1]);
            }
        }
    }
}

} // verus!
