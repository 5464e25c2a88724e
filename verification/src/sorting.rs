//! Stable sorting by key, with a declarative specification: the result is
//! the input rearranged so that keys never decrease and items with equal
//! keys keep their relative order from the input. Such an arrangement is unique.

use vstd::prelude::*;

verus! {

/// A key type ordered by a total preorder.
pub trait SortKey: Sized {
    /// `a` may stand before `b`: the key of `a` is at most the key of `b`.
    spec fn key_le(a: Self, b: Self) -> bool;

    proof fn lemma_key_le_total(a: Self, b: Self)
        ensures
            Self::key_le(a, b) || Self::key_le(b, a),
    ;

    proof fn lemma_key_le_transitive(a: Self, b: Self, c: Self)
        requires
            Self::key_le(a, b),
            Self::key_le(b, c),
        ensures
            Self::key_le(a, c),
    ;

    fn key_le_exec(&self, other: &Self) -> (r: bool)
        ensures
            r == Self::key_le(*self, *other),
    ;
}

impl SortKey for i64 {
    open spec fn key_le(a: i64, b: i64) -> bool {
        a <= b
    }

    proof fn lemma_key_le_total(a: i64, b: i64) {
    }

    proof fn lemma_key_le_transitive(a: i64, b: i64, c: i64) {
    }

    fn key_le_exec(&self, other: &i64) -> (r: bool) {
        *self <= *other
    }
}

/// Lexicographic order of character sequences by code point; for strings it
/// is the order of `str`'s `Ord`, since UTF-8 preserves code point order.
pub open spec fn lex_le(a: Seq<char>, b: Seq<char>) -> bool
    decreases a.len(),
{
    if a.len() == 0 {
        true
    } else if b.len() == 0 {
        false
    } else if a[0] != b[0] {
        (a[0] as int) < (b[0] as int)
    } else {
        lex_le(a.drop_first(), b.drop_first())
    }
}

pub proof fn lemma_lex_le_total(a: Seq<char>, b: Seq<char>)
    ensures
        lex_le(a, b) || lex_le(b, a),
    decreases a.len(),
{
    if a.len() > 0 && b.len() > 0 && a[0] == b[0] {
        lemma_lex_le_total(a.drop_first(), b.drop_first());
    }
}

pub proof fn lemma_lex_le_transitive(a: Seq<char>, b: Seq<char>, c: Seq<char>)
    requires
        lex_le(a, b),
        lex_le(b, c),
    ensures
        lex_le(a, c),
    decreases a.len(),
{
    if a.len() > 0 && b.len() > 0 && c.len() > 0 && a[0] == b[0] && b[0] == c[0] {
        lemma_lex_le_transitive(a.drop_first(), b.drop_first(), c.drop_first());
    }
}

impl SortKey for String {
    open spec fn key_le(a: String, b: String) -> bool {
        lex_le(a@, b@)
    }

    proof fn lemma_key_le_total(a: String, b: String) {
        lemma_lex_le_total(a@, b@);
    }

    proof fn lemma_key_le_transitive(a: String, b: String, c: String) {
        lemma_lex_le_transitive(a@, b@, c@);
    }

    fn key_le_exec(&self, other: &String) -> (r: bool) {
        let a = self.as_str();
        let b = other.as_str();
        let la = a.unicode_len();
        let lb = b.unicode_len();
        let mut i: usize = 0;
        assert(a@.skip(0) =~= a@);
        assert(b@.skip(0) =~= b@);
        while i < la && i < lb
            invariant
                la == a@.len(),
                lb == b@.len(),
                a@ == self@,
                b@ == other@,
                i <= la,
                i <= lb,
                lex_le(a@, b@) == lex_le(a@.skip(i as int), b@.skip(i as int)),
            decreases la - i,
        {
            let ca = a.get_char(i);
            let cb = b.get_char(i);
            assert(a@.skip(i as int)[0] == ca);
            assert(b@.skip(i as int)[0] == cb);
            if ca != cb {
                return (ca as u32) < (cb as u32);
            }
            assert(a@.skip(i as int).drop_first() =~= a@.skip(i + 1));
            assert(b@.skip(i as int).drop_first() =~= b@.skip(i + 1));
            i = i + 1;
        }
        i == la
    }
}

/// `a` comes no later than `b` character by character: `a` is a prefix of
/// `b`, or at the first position where they differ `a` has the smaller code
/// point.
pub open spec fn char_order_le(a: Seq<char>, b: Seq<char>) -> bool {
    ||| (a.len() <= b.len() && a == b.take(a.len() as int))
    ||| exists|i: int|
        0 <= i < a.len() && i < b.len() && a.take(i) == b.take(i) && (a[i] as int) < (#[trigger] b[i] as int)
}

proof fn lemma_lex_le_is_char_order(a: Seq<char>, b: Seq<char>)
    ensures
        lex_le(a, b) <==> char_order_le(a, b),
    decreases a.len(),
{
    if a.len() == 0 {
        assert(a =~= b.take(0));
    } else if b.len() == 0 {
    } else if a[0] != b[0] {
        if (a[0] as int) < (b[0] as int) {
            assert(a.take(0) =~= b.take(0));
            assert(char_order_le(a, b));
        } else {
            assert forall|i: int| 0 <= i < a.len() && i < b.len() && a.take(i) == b.take(i) implies !((a[i] as int) < (#[trigger] b[i] as int)) by {
                if i > 0 {
                    assert(a.take(i)[0] == b.take(i)[0]);
                }
            }
            if a.len() <= b.len() && a == b.take(a.len() as int) {
                assert(a[0] == b.take(a.len() as int)[0]);
            }
        }
    } else {
        let a1 = a.drop_first();
        let b1 = b.drop_first();
        lemma_lex_le_is_char_order(a1, b1);
        if a.len() <= b.len() && a == b.take(a.len() as int) {
            assert(a1 =~= b1.take(a1.len() as int));
        }
        if a1.len() <= b1.len() && a1 == b1.take(a1.len() as int) {
            assert forall|j: int| 0 <= j < a.len() implies a[j] == #[trigger] b.take(a.len() as int)[j] by {
                if j > 0 {
                    assert(a[j] == a1[j - 1]);
                    assert(a1[j - 1] == b1.take(a1.len() as int)[j - 1]);
                }
            }
            assert(a =~= b.take(a.len() as int));
        }
        if exists|i: int|
            0 <= i < a.len() && i < b.len() && a.take(i) == b.take(i) && (a[i] as int) < (#[trigger] b[i] as int) {
            let i = choose|i: int|
                0 <= i < a.len() && i < b.len() && a.take(i) == b.take(i) && (a[i] as int) < (#[trigger] b[i] as int);
            assert(i > 0);
            assert(a1.take(i - 1) =~= a.take(i).drop_first());
            assert(b1.take(i - 1) =~= b.take(i).drop_first());
            assert(b1[i - 1] == b[i]);
            assert(char_order_le(a1, b1));
        }
        if exists|i: int|
            0 <= i < a1.len() && i < b1.len() && a1.take(i) == b1.take(i) && (a1[i] as int) < (#[trigger] b1[i] as int) {
            let i = choose|i: int|
                0 <= i < a1.len() && i < b1.len() && a1.take(i) == b1.take(i) && (a1[i] as int) < (#[trigger] b1[i] as int);
            assert(a.take(i + 1) =~= seq![a[0]] + a1.take(i));
            assert(b.take(i + 1) =~= seq![b[0]] + b1.take(i));
            assert(b[i + 1] == b1[i]);
            assert(char_order_le(a, b));
        }
    }
}

/// Every sequence comes no later than itself.
pub proof fn lemma_lex_le_refl(a: Seq<char>)
    ensures
        lex_le(a, a),
    decreases a.len(),
{
    if a.len() > 0 {
        lemma_lex_le_refl(a.drop_first());
    }
}

/// A stable order lists each position once.
pub proof fn lemma_stable_order_distinct<K: SortKey>(o: Seq<usize>, keys: Seq<K>, k: int, l: int)
    requires
        is_stable_order(o, keys),
        0 <= k < l < o.len(),
    ensures
        o[k] != o[l],
{
    if o[k] == o[l] {
        assert(stands_before(keys, o[k] as int, o[l] as int));
        assert(stands_before(keys, o[k] as int, o[k] as int));
        K::lemma_key_le_total(keys[o[k] as int], keys[o[k] as int]);
    }
}

/// Strings are ordered as `str`'s `Ord` orders them: character by character
/// by code point over the whole string, a proper prefix first.
pub proof fn lemma_string_key_order(a: String, b: String)
    ensures
        <String as SortKey>::key_le(a, b) <==> char_order_le(a@, b@),
{
    lemma_lex_le_is_char_order(a@, b@);
}

/// Item `i` of `keys` stands before item `j` in a stable sort: its key is
/// smaller, or the keys tie and `i` comes first.
pub open spec fn stands_before<K: SortKey>(keys: Seq<K>, i: int, j: int) -> bool {
    K::key_le(keys[i], keys[j]) && (!K::key_le(keys[j], keys[i]) || i < j)
}

/// `order` holds the index `j` at some position.
pub open spec fn holds_index(order: Seq<usize>, j: int) -> bool {
    exists|k: int| 0 <= k < order.len() && #[trigger] order[k] == j
}

/// `order` lists every index of `keys` exactly once, in the order of a
/// stable sort by key.
pub open spec fn is_stable_order<K: SortKey>(order: Seq<usize>, keys: Seq<K>) -> bool {
    &&& order.len() == keys.len()
    &&& forall|k: int| 0 <= k < order.len() ==> #[trigger] order[k] < keys.len()
    &&& forall|j: int| 0 <= j < keys.len() ==> #[trigger] holds_index(order, j)
    &&& forall|a: int, b: int|
        0 <= a < b < order.len() ==> stands_before(keys, #[trigger] order[a] as int, #[trigger] order[b] as int)
}

/// The items rearranged by `order`.
pub open spec fn arrange<T>(items: Seq<T>, order: Seq<usize>) -> Seq<T> {
    Seq::new(order.len(), |k: int| items[order[k] as int])
}

/// `items` stably sorted by `keys` (the key of `items[i]` is `keys[i]`).
pub open spec fn stable_sorted<K: SortKey, T>(items: Seq<T>, keys: Seq<K>) -> Seq<T> {
    arrange(items, choose|o: Seq<usize>| is_stable_order(o, keys))
}

proof fn lemma_order_agrees_at<K: SortKey>(o1: Seq<usize>, o2: Seq<usize>, keys: Seq<K>, k: int)
    requires
        is_stable_order(o1, keys),
        is_stable_order(o2, keys),
        0 <= k < o1.len(),
        forall|m: int| 0 <= m < k ==> o1[m] == o2[m],
    ensures
        o1[k] == o2[k],
{
    let a = o1[k] as int;
    let b = o2[k] as int;
    if a != b {
        K::lemma_key_le_total(keys[a], keys[b]);
        if stands_before(keys, a, b) {
            assert(holds_index(o2, a));
            let p = choose|p: int| 0 <= p < o2.len() && o2[p] == a;
            if p < k {
                assert(o1[p] == a);
                assert(stands_before(keys, o1[p] as int, o1[k] as int));
            } else {
                assert(stands_before(keys, o2[k] as int, o2[p] as int));
            }
        } else {
            assert(stands_before(keys, b, a));
            assert(holds_index(o1, b));
            let p = choose|p: int| 0 <= p < o1.len() && o1[p] == b;
            if p < k {
                assert(o2[p] == b);
                assert(stands_before(keys, o2[p] as int, o2[k] as int));
            } else {
                assert(stands_before(keys, o1[k] as int, o1[p] as int));
            }
        }
    }
}

proof fn lemma_orders_agree_below<K: SortKey>(o1: Seq<usize>, o2: Seq<usize>, keys: Seq<K>, k: int)
    requires
        is_stable_order(o1, keys),
        is_stable_order(o2, keys),
        0 <= k <= o1.len(),
    ensures
        forall|m: int| 0 <= m < k ==> o1[m] == o2[m],
    decreases k,
{
    if k > 0 {
        lemma_orders_agree_below(o1, o2, keys, k - 1);
        lemma_order_agrees_at(o1, o2, keys, k - 1);
    }
}

/// There is only one stable order of a key sequence.
pub proof fn lemma_stable_order_unique<K: SortKey>(o1: Seq<usize>, o2: Seq<usize>, keys: Seq<K>)
    requires
        is_stable_order(o1, keys),
        is_stable_order(o2, keys),
    ensures
        o1 == o2,
{
    lemma_orders_agree_below(o1, o2, keys, o1.len() as int);
    assert(o1 =~= o2);
}

/// A stable order, wherever one is found, yields `stable_sorted`.
pub proof fn lemma_stable_sorted_by_order<K: SortKey, T>(items: Seq<T>, keys: Seq<K>, order: Seq<usize>)
    requires
        is_stable_order(order, keys),
    ensures
        stable_sorted(items, keys) == arrange(items, order),
{
    let o = choose|o: Seq<usize>| is_stable_order(o, keys);
    lemma_stable_order_unique(o, order, keys);
}

/// Every key sequence that `usize` positions can index has a stable order.
pub proof fn lemma_stable_order_exists<K: SortKey>(keys: Seq<K>)
    requires
        keys.len() <= usize::MAX,
    ensures
        exists|o: Seq<usize>| is_stable_order(o, keys),
    decreases keys.len(),
{
    if keys.len() == 0 {
        assert(is_stable_order(Seq::<usize>::empty(), keys));
    } else {
        let n = keys.len() - 1;
        let prev = keys.drop_last();
        lemma_stable_order_exists(prev);
        let o = choose|o: Seq<usize>| is_stable_order(o, prev);
        assert forall|a: int, b: int| 0 <= a < b < o.len() implies stands_before(keys, #[trigger] o[a] as int, #[trigger] o[b] as int) by {
            assert(stands_before(prev, o[a] as int, o[b] as int));
            assert(prev[o[a] as int] == keys[o[a] as int]);
            assert(prev[o[b] as int] == keys[o[b] as int]);
        }
        let pred = |k: usize| !K::key_le(keys[k as int], keys[n]);
        crate::search::lemma_first_index_meaning(o, pred);
        let fi = crate::search::first_index(o, pred);
        let p: int = if fi < 0 { o.len() as int } else { fi };
        assert forall|k: int| 0 <= k < p implies K::key_le(keys[#[trigger] o[k] as int], keys[n]) by {
            assert(!pred(o[k]));
        }
        assert forall|k: int| p <= k < o.len() implies !K::key_le(keys[#[trigger] o[k] as int], keys[n]) by {
            assert(pred(o[p]));
            if k > p && K::key_le(keys[o[k] as int], keys[n]) {
                assert(stands_before(keys, o[p] as int, o[k] as int));
                K::lemma_key_le_transitive(keys[o[p] as int], keys[o[k] as int], keys[n]);
            }
        }
        assert forall|k: int| p <= k < o.len() implies K::key_le(keys[n], keys[#[trigger] o[k] as int]) by {
            K::lemma_key_le_total(keys[n], keys[o[k] as int]);
        }
        let no = o.insert(p, n as usize);
        assert forall|k: int| 0 <= k < no.len() implies #[trigger] no[k] < keys.len() by {
            if k < p {
                assert(no[k] == o[k]);
            } else if k > p {
                assert(no[k] == o[k - 1]);
            }
        }
        assert forall|j: int| 0 <= j < keys.len() implies #[trigger] holds_index(no, j) by {
            if j < n {
                assert(holds_index(o, j));
                let k = choose|k: int| 0 <= k < o.len() && o[k] == j;
                if k < p {
                    assert(no[k] == j);
                } else {
                    assert(no[k + 1] == j);
                }
            } else {
                assert(no[p] == j);
            }
        }
        assert forall|a: int, b: int| 0 <= a < b < no.len() implies stands_before(keys, #[trigger] no[a] as int, #[trigger] no[b] as int) by {
            if b < p {
                assert(no[a] == o[a] && no[b] == o[b]);
            } else if b == p {
                assert(no[a] == o[a]);
                assert(o[a] < n);
            } else if a < p {
                assert(no[a] == o[a] && no[b] == o[b - 1]);
            } else if a == p {
                assert(no[b] == o[b - 1]);
                assert(o[b - 1] < n);
            } else {
                assert(no[a] == o[a - 1] && no[b] == o[b - 1]);
            }
        }
        assert(is_stable_order(no, keys));
    }
}

/// What `stable_sorted` gives: every item once, keys never decreasing, and
/// items with equal keys in their input order.
pub proof fn lemma_stable_sorted_meaning<K: SortKey, T>(items: Seq<T>, keys: Seq<K>)
    requires
        items.len() == keys.len(),
        keys.len() <= usize::MAX,
    ensures
        ({
            let o = choose|o: Seq<usize>| is_stable_order(o, keys);
            &&& is_stable_order(o, keys)
            &&& stable_sorted(items, keys) == arrange(items, o)
        }),
{
    lemma_stable_order_exists(keys);
}

/// The positions of `keys` in the order of a stable sort by key.
pub fn stable_order<K: SortKey>(keys: &Vec<K>) -> (order: Vec<usize>)
    ensures
        is_stable_order(order@, keys@),
{
    let n = keys.len();
    let mut order: Vec<usize> = Vec::new();
    for i in 0..n
        invariant
            n == keys@.len(),
            order@.len() == i,
            forall|k: int| 0 <= k < order@.len() ==> #[trigger] order@[k] < i,
            forall|j: int| 0 <= j < i ==> #[trigger] holds_index(order@, j),
            forall|a: int, b: int|
                0 <= a < b < order@.len() ==> stands_before(keys@, #[trigger] order@[a] as int, #[trigger] order@[b] as int),
    {
        let mut p: usize = order.len();
        while p > 0 && !keys[order[p - 1]].key_le_exec(&keys[i])
            invariant
                n == keys@.len(),
                i < n,
                order@.len() == i,
                p <= order@.len(),
                forall|k: int| 0 <= k < order@.len() ==> #[trigger] order@[k] < i,
                forall|k: int| p <= k < order@.len() ==> !K::key_le(keys@[#[trigger] order@[k] as int], keys@[i as int]),
            decreases p,
        {
            p = p - 1;
        }
        let ghost old_order = order@;
        proof {
            // everything left of p may stand before the new item
            assert forall|k: int| 0 <= k < p implies K::key_le(keys@[#[trigger] old_order[k] as int], keys@[i as int]) by {
                if k < p - 1 {
                    assert(stands_before(keys@, old_order[k] as int, old_order[p - 1] as int));
                    K::lemma_key_le_transitive(keys@[old_order[k] as int], keys@[old_order[p - 1] as int], keys@[i as int]);
                }
            }
            assert forall|k: int| p <= k < old_order.len() implies K::key_le(keys@[i as int], keys@[#[trigger] old_order[k] as int]) by {
                K::lemma_key_le_total(keys@[i as int], keys@[old_order[k] as int]);
            }
        }
        order.insert(p, i);
        proof {
            let no = order@;
            assert forall|k: int| 0 <= k < no.len() implies #[trigger] no[k] < i + 1 by {
                if k < p {
                    assert(no[k] == old_order[k]);
                } else if k > p {
                    assert(no[k] == old_order[k - 1]);
                }
            }
            assert forall|j: int| 0 <= j < i + 1 implies #[trigger] holds_index(no, j) by {
                if j < i {
                    assert(holds_index(old_order, j));
                    let k = choose|k: int| 0 <= k < old_order.len() && old_order[k] == j;
                    if k < p {
                        assert(no[k] == j);
                    } else {
                        assert(no[k + 1] == j);
                    }
                } else {
                    assert(no[p as int] == j);
                }
            }
            assert forall|a: int, b: int| 0 <= a < b < no.len() implies stands_before(keys@, #[trigger] no[a] as int, #[trigger] no[b] as int) by {
                if b < p {
                    assert(no[a] == old_order[a] && no[b] == old_order[b]);
                } else if b == p {
                    assert(no[a] == old_order[a]);
                    assert(K::key_le(keys@[old_order[a] as int], keys@[i as int]));
                } else if a < p {
                    assert(no[a] == old_order[a] && no[b] == old_order[b - 1]);
                } else if a == p {
                    assert(no[b] == old_order[b - 1]);
                    assert(!K::key_le(keys@[old_order[b - 1] as int], keys@[i as int]));
                } else {
                    assert(no[a] == old_order[a - 1] && no[b] == old_order[b - 1]);
                }
            }
        }
    }
    order
}

} // verus!
