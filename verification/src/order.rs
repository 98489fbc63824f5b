//! Stable ordering of sequences by an integer key, as a stable sort leaves
//! them: the order of insertion sort, where each element goes after every
//! element already placed whose key is not greater.
use vstd::prelude::*;

verus! {

/// The number of leading elements of `s` whose key is at most `k`: the
/// position where an element with key `k` goes after a stable insertion.
pub open spec fn insertion_point<A>(s: Seq<A>, key: spec_fn(A) -> int, k: int) -> nat
    decreases s.len(),
{
    if s.len() == 0 {
        0
    } else if key(s[0]) > k {
        0
    } else {
        1 + insertion_point(s.drop_first(), key, k)
    }
}

/// `s` with `x` placed after every leading element whose key is at most
/// that of `x`.
pub open spec fn insert_stable<A>(s: Seq<A>, key: spec_fn(A) -> int, x: A) -> Seq<A> {
    s.insert(insertion_point(s, key, key(x)) as int, x)
}

/// `s` as a stable sort by `key` orders it.
pub open spec fn stable_sorted<A>(s: Seq<A>, key: spec_fn(A) -> int) -> Seq<A>
    decreases s.len(),
{
    if s.len() == 0 {
        s
    } else {
        insert_stable(stable_sorted(s.drop_last(), key), key, s.last())
    }
}

/// Whether the keys of `s` never decrease.
pub open spec fn sorted_by<A>(s: Seq<A>, key: spec_fn(A) -> int) -> bool {
    forall|i: int, j: int| 0 <= i < j < s.len() ==> key(#[trigger] s[i]) <= key(#[trigger] s[j])
}

/// The insertion point is the first position whose key exceeds `k`.
pub proof fn lemma_insertion_point_is<A>(s: Seq<A>, key: spec_fn(A) -> int, k: int, i: int)
    requires
        0 <= i <= s.len(),
        forall|j: int| 0 <= j < i ==> key(#[trigger] s[j]) <= k,
        i == s.len() || key(s[i]) > k,
    ensures
        insertion_point(s, key, k) == i,
    decreases s.len(),
{
    if s.len() > 0 && i > 0 {
        let t = s.drop_first();
        assert forall|j: int| 0 <= j < i - 1 implies key(#[trigger] t[j]) <= k by {
            assert(t[j] == s[j + 1]);
        }
        if i < s.len() {
            assert(t[i - 1] == s[i]);
        }
        lemma_insertion_point_is(t, key, k, i - 1);
    }
}

/// Every element before the insertion point has a key of at most `k`, and
/// in a sorted sequence every element from it on has a greater key.
pub proof fn lemma_insertion_point_bounds<A>(s: Seq<A>, key: spec_fn(A) -> int, k: int)
    ensures
        insertion_point(s, key, k) <= s.len(),
        forall|j: int| 0 <= j < insertion_point(s, key, k) ==> key(#[trigger] s[j]) <= k,
        insertion_point(s, key, k) < s.len() ==> key(s[insertion_point(s, key, k) as int]) > k,
        sorted_by(s, key) ==> forall|j: int|
            insertion_point(s, key, k) <= j < s.len() ==> key(#[trigger] s[j]) > k,
    decreases s.len(),
{
    if s.len() > 0 && key(s[0]) <= k {
        let t = s.drop_first();
        lemma_insertion_point_bounds(t, key, k);
        assert forall|j: int| 0 <= j < insertion_point(s, key, k) implies key(#[trigger] s[j]) <= k by {
            if j > 0 {
                assert(s[j] == t[j - 1]);
            }
        }
        if insertion_point(s, key, k) < s.len() {
            assert(s[insertion_point(s, key, k) as int] == t[insertion_point(t, key, k) as int]);
        }
        if sorted_by(s, key) {
            assert(sorted_by(t, key)) by {
                assert forall|a: int, b: int| 0 <= a < b < t.len() implies key(#[trigger] t[a]) <= key(
                    #[trigger] t[b],
                ) by {
                    assert(t[a] == s[a + 1] && t[b] == s[b + 1]);
                }
            }
            assert forall|j: int| insertion_point(s, key, k) <= j < s.len() implies key(
                #[trigger] s[j],
            ) > k by {
                assert(s[j] == t[j - 1]);
            }
        }
    } else if s.len() > 0 {
        if sorted_by(s, key) {
            assert forall|j: int| 0 <= j < s.len() implies key(#[trigger] s[j]) > k by {
                if j > 0 {
                    assert(key(s[0]) <= key(s[j]));
                }
            }
        }
    }
}

/// Inserting at the insertion point keeps a sorted sequence sorted.
pub proof fn lemma_insert_stable_sorted<A>(s: Seq<A>, key: spec_fn(A) -> int, x: A)
    requires
        sorted_by(s, key),
    ensures
        sorted_by(insert_stable(s, key, x), key),
        insert_stable(s, key, x).len() == s.len() + 1,
{
    lemma_insertion_point_bounds(s, key, key(x));
    let p = insertion_point(s, key, key(x)) as int;
    let r = insert_stable(s, key, x);
    assert forall|i: int, j: int| 0 <= i < j < r.len() implies key(#[trigger] r[i]) <= key(
        #[trigger] r[j],
    ) by {
        if i < p {
            assert(r[i] == s[i]);
        } else if i > p {
            assert(r[i] == s[i - 1]);
        }
        if j < p {
            assert(r[j] == s[j]);
        } else if j > p {
            assert(r[j] == s[j - 1]);
        }
    }
}

/// A stably sorted sequence is sorted and has the same length.
pub proof fn lemma_stable_sorted_sorted<A>(s: Seq<A>, key: spec_fn(A) -> int)
    ensures
        sorted_by(stable_sorted(s, key), key),
        stable_sorted(s, key).len() == s.len(),
    decreases s.len(),
{
    if s.len() > 0 {
        lemma_stable_sorted_sorted(s.drop_last(), key);
        lemma_insert_stable_sorted(stable_sorted(s.drop_last(), key), key, s.last());
    }
}

/// Sorting a sorted sequence leaves it unchanged.
pub proof fn lemma_stable_sorted_of_sorted<A>(s: Seq<A>, key: spec_fn(A) -> int)
    requires
        sorted_by(s, key),
    ensures
        stable_sorted(s, key) == s,
    decreases s.len(),
{
    if s.len() > 0 {
        let t = s.drop_last();
        assert(sorted_by(t, key));
        lemma_stable_sorted_of_sorted(t, key);
        lemma_insertion_point_is(t, key, key(s.last()), t.len() as int);
        assert(t.insert(t.len() as int, s.last()) =~= s);
    }
}

} // verus!
