use vstd::prelude::*;

verus! {

/// Keys of a table that are strictly increasing.
pub open spec fn strictly_increasing(keys: Seq<int>) -> bool {
    forall|i: int, j: int| 0 <= i < j < keys.len() ==> keys[i] < keys[j]
}

/// The index of the last key that is at or before `k`, or `-1` when every key lies after `k`.
pub open spec fn last_at_or_before(keys: Seq<int>, k: int) -> int
    decreases keys.len(),
{
    if keys.len() == 0 {
        -1
    } else if keys.last() <= k {
        keys.len() - 1
    } else {
        last_at_or_before(keys.drop_last(), k)
    }
}

/// In a strictly increasing table, the entry `i` governs `k` when it is the last one not after `k`.
pub proof fn lemma_last_at_or_before(keys: Seq<int>, k: int, i: int)
    requires
        strictly_increasing(keys),
        0 <= i < keys.len(),
        keys[i] <= k,
        i + 1 == keys.len() || k < keys[i + 1],
    ensures
        last_at_or_before(keys, k) == i,
    decreases keys.len(),
{
    if i + 1 < keys.len() {
        assert(keys.last() > k);
        lemma_last_at_or_before(keys.drop_last(), k, i);
    }
}

/// When every key lies after `k`, no entry governs it.
pub proof fn lemma_last_at_or_before_none(keys: Seq<int>, k: int)
    requires
        forall|j: int| 0 <= j < keys.len() ==> k < #[trigger] keys[j],
    ensures
        last_at_or_before(keys, k) == -1,
    decreases keys.len(),
{
    if keys.len() > 0 {
        assert(keys.last() > k);
        lemma_last_at_or_before_none(keys.drop_last(), k);
    }
}

/// The governing entry is in range, at or before `k`, and the next entry (if any) lies after `k`.
pub proof fn lemma_last_at_or_before_bounds(keys: Seq<int>, k: int)
    requires
        strictly_increasing(keys),
        keys.len() > 0,
        keys[0] <= k,
    ensures
        0 <= last_at_or_before(keys, k) < keys.len(),
        keys[last_at_or_before(keys, k)] <= k,
        last_at_or_before(keys, k) + 1 == keys.len() || k < keys[last_at_or_before(keys, k) + 1],
    decreases keys.len(),
{
    if keys.last() > k {
        assert(keys.len() > 1);
        lemma_last_at_or_before_bounds(keys.drop_last(), k);
    }
}

/// The governing entry never moves backwards as time advances.
pub proof fn lemma_last_at_or_before_monotone(keys: Seq<int>, k1: int, k2: int)
    requires
        strictly_increasing(keys),
        keys.len() > 0,
        keys[0] <= k1 <= k2,
    ensures
        last_at_or_before(keys, k1) <= last_at_or_before(keys, k2),
{
    lemma_last_at_or_before_bounds(keys, k1);
    lemma_last_at_or_before_bounds(keys, k2);
    let i1 = last_at_or_before(keys, k1);
    let i2 = last_at_or_before(keys, k2);
    if i1 > i2 {
        assert(keys[i2 + 1] <= keys[i1]);
    }
}

/// The index of the first element of `s` that satisfies `p`, or `-1` when none does.
pub open spec fn first_index<T>(s: Seq<T>, p: spec_fn(T) -> bool) -> int
    decreases s.len(),
{
    if s.len() == 0 {
        -1
    } else if p(s[0]) {
        0
    } else {
        let r = first_index(s.drop_first(), p);
        if r < 0 {
            -1
        } else {
            r + 1
        }
    }
}

/// The first element that satisfies `p` is at `i` when `s[i]` does and none before it does.
pub proof fn lemma_first_index<T>(s: Seq<T>, p: spec_fn(T) -> bool, i: int)
    requires
        0 <= i < s.len(),
        p(s[i]),
        forall|j: int| 0 <= j < i ==> !p(#[trigger] s[j]),
    ensures
        first_index(s, p) == i,
    decreases i,
{
    if i > 0 {
        assert(!p(s[0]));
        assert forall|j: int| 0 <= j < i - 1 implies !p(#[trigger] s.drop_first()[j]) by {
            assert(s.drop_first()[j] == s[j + 1]);
        }
        lemma_first_index(s.drop_first(), p, i - 1);
    }
}

/// No element satisfies `p`.
pub proof fn lemma_first_index_none<T>(s: Seq<T>, p: spec_fn(T) -> bool)
    requires
        forall|j: int| 0 <= j < s.len() ==> !p(#[trigger] s[j]),
    ensures
        first_index(s, p) == -1,
    decreases s.len(),
{
    if s.len() > 0 {
        assert(!p(s[0]));
        assert forall|j: int| 0 <= j < s.len() - 1 implies !p(#[trigger] s.drop_first()[j]) by {
            assert(s.drop_first()[j] == s[j + 1]);
        }
        lemma_first_index_none(s.drop_first(), p);
    }
}

/// The first index, when there is one, is in range and satisfies `p`.
pub proof fn lemma_first_index_bounds<T>(s: Seq<T>, p: spec_fn(T) -> bool)
    ensures
        -1 <= first_index(s, p) < s.len(),
        first_index(s, p) >= 0 ==> p(s[first_index(s, p)]),
    decreases s.len(),
{
    if s.len() > 0 && !p(s[0]) {
        lemma_first_index_bounds(s.drop_first(), p);
    }
}

/// The distinct items of `s`, each where it first occurs.
pub open spec fn first_occurrences<A>(s: Seq<A>) -> Seq<A>
    decreases s.len(),
{
    if s.len() == 0 {
        Seq::empty()
    } else {
        let p = first_occurrences(s.drop_last());
        if p.contains(s.last()) {
            p
        } else {
            p.push(s.last())
        }
    }
}

} // verus!
