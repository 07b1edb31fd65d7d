//! Occurrence counts over sequences, classified by a key function.
//!
//! The pipeline's central invariant says that every work index lives in
//! exactly one place (queued, in flight, succeeded, failed). That is stated
//! with `count_by`, which counts how many elements of a sequence map to a
//! given key. With the identity key it counts occurrences of one element, so
//! the same lemmas also show that sorting preserves the multiset of results.

use vstd::prelude::*;

verus! {

/// How many elements of `s` have key `k` under `key`.
pub open spec fn count_by<T, K>(s: Seq<T>, key: spec_fn(T) -> K, k: K) -> nat
    decreases s.len(),
{
    if s.len() == 0 {
        0
    } else {
        count_by(s.drop_last(), key, k) + (if key(s.last()) == k {
            1nat
        } else {
            0nat
        })
    }
}

/// Appending one element raises exactly its own key's count by one.
pub proof fn lemma_count_push<T, K>(s: Seq<T>, key: spec_fn(T) -> K, k: K, x: T)
    ensures
        count_by(s.push(x), key, k) == count_by(s, key, k) + (if key(x) == k {
            1nat
        } else {
            0nat
        }),
{
    assert(s.push(x).drop_last() =~= s);
    assert(s.push(x).last() == x);
}

/// Removing the element at `j` lowers exactly its own key's count by one.
pub proof fn lemma_count_remove<T, K>(s: Seq<T>, key: spec_fn(T) -> K, k: K, j: int)
    requires
        0 <= j < s.len(),
    ensures
        count_by(s, key, k) == count_by(s.remove(j), key, k) + (if key(s[j]) == k {
            1nat
        } else {
            0nat
        }),
    decreases s.len(),
{
    if j == s.len() - 1 {
        assert(s.remove(j) =~= s.drop_last());
    } else {
        assert(s.remove(j).drop_last() =~= s.drop_last().remove(j));
        assert(s.remove(j).last() == s.last());
        lemma_count_remove(s.drop_last(), key, k, j);
    }
}

/// Inserting an element at `j` raises exactly its own key's count by one.
pub proof fn lemma_count_insert<T, K>(s: Seq<T>, key: spec_fn(T) -> K, k: K, j: int, x: T)
    requires
        0 <= j <= s.len(),
    ensures
        count_by(s.insert(j, x), key, k) == count_by(s, key, k) + (if key(x) == k {
            1nat
        } else {
            0nat
        }),
{
    assert(s.insert(j, x).remove(j) =~= s);
    assert(s.insert(j, x)[j] == x);
    lemma_count_remove(s.insert(j, x), key, k, j);
}

/// An element at position `j` makes its key's count positive.
pub proof fn lemma_count_at_least_one<T, K>(s: Seq<T>, key: spec_fn(T) -> K, j: int)
    requires
        0 <= j < s.len(),
    ensures
        count_by(s, key, key(s[j])) >= 1,
    decreases s.len(),
{
    if j < s.len() - 1 {
        lemma_count_at_least_one(s.drop_last(), key, j);
    }
}

/// A positive count names a position holding that key.
pub proof fn lemma_count_position<T, K>(s: Seq<T>, key: spec_fn(T) -> K, k: K)
    requires
        count_by(s, key, k) >= 1,
    ensures
        exists|j: int| 0 <= j < s.len() && key(s[j]) == k,
    decreases s.len(),
{
    if key(s.last()) == k {
        assert(key(s[s.len() - 1]) == k);
    } else {
        lemma_count_position(s.drop_last(), key, k);
        let j = choose|j: int| 0 <= j < s.drop_last().len() && key(s.drop_last()[j]) == k;
        assert(key(s[j]) == k);
    }
}

/// Two distinct positions with the same key push the count to two or more.
pub proof fn lemma_count_two_positions<T, K>(s: Seq<T>, key: spec_fn(T) -> K, j1: int, j2: int)
    requires
        0 <= j1 < s.len(),
        0 <= j2 < s.len(),
        j1 != j2,
        key(s[j1]) == key(s[j2]),
    ensures
        count_by(s, key, key(s[j1])) >= 2,
    decreases s.len(),
{
    let last = s.len() - 1;
    if j1 == last {
        lemma_count_at_least_one(s.drop_last(), key, j2);
    } else if j2 == last {
        lemma_count_at_least_one(s.drop_last(), key, j1);
    } else {
        lemma_count_two_positions(s.drop_last(), key, j1, j2);
    }
}

/// Counts add up across concatenation.
pub proof fn lemma_count_concat<T, K>(a: Seq<T>, b: Seq<T>, key: spec_fn(T) -> K, k: K)
    ensures
        count_by(a + b, key, k) == count_by(a, key, k) + count_by(b, key, k),
    decreases b.len(),
{
    if b.len() == 0 {
        assert(a + b =~= a);
    } else {
        assert((a + b).drop_last() =~= a + b.drop_last());
        assert((a + b).last() == b.last());
        lemma_count_concat(a, b.drop_last(), key, k);
    }
}

/// Two sequences whose elements carry the same keys, position by position,
/// have the same counts.
pub proof fn lemma_count_pointwise<T, U>(
    a: Seq<T>,
    b: Seq<U>,
    ka: spec_fn(T) -> int,
    kb: spec_fn(U) -> int,
    k: int,
)
    requires
        a.len() == b.len(),
        forall|q: int| 0 <= q < a.len() ==> ka(#[trigger] a[q]) == kb(b[q]),
    ensures
        count_by(a, ka, k) == count_by(b, kb, k),
    decreases a.len(),
{
    if a.len() > 0 {
        lemma_count_pointwise(a.drop_last(), b.drop_last(), ka, kb, k);
    }
}

/// Keys of `a` arise from keys of `b` through the strictly increasing table
/// `origs`. Then counting in `a` at a table entry equals counting in `b` at
/// its position, and nothing outside the table is counted at all.
pub proof fn lemma_count_remap<T, U>(
    a: Seq<T>,
    b: Seq<U>,
    ka: spec_fn(T) -> int,
    kb: spec_fn(U) -> int,
    origs: Seq<usize>,
)
    requires
        a.len() == b.len(),
        forall|q: int| 0 <= q < b.len() ==> 0 <= kb(#[trigger] b[q]) < origs.len(),
        forall|q: int| 0 <= q < a.len() ==> ka(#[trigger] a[q]) == origs[kb(b[q])] as int,
        forall|j1: int, j2: int|
            0 <= j1 < j2 < origs.len() ==> (#[trigger] origs[j1]) < (#[trigger] origs[j2]),
    ensures
        forall|ji: int|
            0 <= ji < origs.len() ==> count_by(a, ka, (#[trigger] origs[ji]) as int) == count_by(
                b,
                kb,
                ji,
            ),
        forall|i: int|
            (forall|ji: int| 0 <= ji < origs.len() ==> (#[trigger] origs[ji]) as int != i)
                ==> count_by(a, ka, i) == 0,
    decreases a.len(),
{
    if a.len() == 0 {
    } else {
        lemma_count_remap(a.drop_last(), b.drop_last(), ka, kb, origs);
        let jl = kb(b.last());
        assert(ka(a.last()) == origs[jl] as int);
        assert forall|ji: int| 0 <= ji < origs.len() implies count_by(
            a,
            ka,
            (#[trigger] origs[ji]) as int,
        ) == count_by(b, kb, ji) by {
            // The table is injective, so the last element lands on `ji`
            // exactly when `ji` is its own source position.
            if ji != jl {
                assert(origs[ji] != origs[jl]);
            }
            assert(count_by(a.drop_last(), ka, origs[ji] as int) == count_by(
                b.drop_last(),
                kb,
                ji,
            ));
        }
        assert forall|i: int|
            (forall|ji: int| 0 <= ji < origs.len() ==> (#[trigger] origs[ji]) as int
                != i) implies count_by(a, ka, i) == 0 by {
            assert(origs[jl] as int != i);
            assert(ka(a.last()) != i);
            assert(count_by(a.drop_last(), ka, i) == 0);
        }
    }
}

} // verus!
