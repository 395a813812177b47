use vstd::prelude::*;

verus! {

/// `c` is among the first `n` keys of `keys`.
pub open spec fn among_keys(keys: Seq<&usize>, n: int, c: usize) -> bool {
    exists|j: int| 0 <= j < n && j < keys.len() && *#[trigger] keys[j] == c
}

/// One key more is one member more.
pub proof fn lemma_among_keys_next(keys: Seq<&usize>, n: int)
    requires
        0 <= n < keys.len(),
    ensures
        forall|k: usize| among_keys(keys, n + 1, k) <==> among_keys(keys, n, k) || k == *keys[n],
{
}

/// Where no key comes twice, a key is not among those before it.
pub proof fn lemma_among_keys_fresh(keys: Seq<&usize>, n: int)
    requires
        keys.no_duplicates(),
        0 <= n < keys.len(),
    ensures
        !among_keys(keys, n, *keys[n]),
{
}

/// All the keys together are the set they were drawn from.
pub proof fn lemma_among_keys_all(keys: Seq<&usize>, all: Set<usize>)
    requires
        keys.unref().to_set() == all,
    ensures
        forall|k: usize| among_keys(keys, keys.len() as int, k) <==> all.contains(k),
        forall|j: int| 0 <= j < keys.len() ==> all.contains(*#[trigger] keys[j]),
{
    assert forall|k: usize| among_keys(keys, keys.len() as int, k) <==> all.contains(k) by {
        if among_keys(keys, keys.len() as int, k) {
            let j = choose|j: int| 0 <= j < keys.len() && j < keys.len() && *keys[j] == k;
            assert(keys.unref()[j] == k);
        }
    }
}

/// An element is in a sequence that grew by at most one element at its end
/// exactly when it was there before or is the new one.
pub proof fn lemma_grown_contains<A>(before: Seq<A>, after: Seq<A>, x: A)
    requires
        after == before || (after.len() == before.len() + 1 && after.drop_last() == before),
    ensures
        after.contains(x) <==> before.contains(x) || (after != before && after.last() == x),
{
    if after != before {
        if after.contains(x) {
            let k = choose|k: int| 0 <= k < after.len() && after[k] == x;
            if k < before.len() {
                assert(before[k] == after.drop_last()[k]);
            }
        }
    }
}

} // verus!
