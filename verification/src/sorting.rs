use vstd::prelude::*;
use std::cmp::Ordering;
use vstd::std_specs::cmp::OrdSpec;
use rayon::slice::ParallelSliceMut;

verus! {

/// The answer for the swapped pair.
pub open spec fn opposite(o: Ordering) -> Ordering {
    match o {
        Ordering::Less => Ordering::Greater,
        Ordering::Equal => Ordering::Equal,
        Ordering::Greater => Ordering::Less,
    }
}

/// The ordering that a comparator gives back for `a` and `b`, whenever it returns.
pub open spec fn compares<T, F: Fn(&T, &T) -> Ordering>(f: F, a: T, b: T, o: Ordering) -> bool {
    call_ensures(f, (&a, &b), o)
}

/// `a` may stand before `b`: the comparator never answers `Greater` for them.
pub open spec fn not_after<T, F: Fn(&T, &T) -> Ordering>(f: F, a: T, b: T) -> bool {
    forall|o: Ordering| #[trigger] compares(f, a, b, o) ==> o != Ordering::Greater
}

/// The comparator defines a total order on `T`: it accepts every pair, answers each pair
/// the same way every time, answers a swapped pair the opposite way, and is transitive
/// (`a` not after `b` and `b` not after `c` give `a` not after `c`).
pub open spec fn is_total_order<T, F: Fn(&T, &T) -> Ordering>(f: F) -> bool {
    &&& forall|a: T, b: T| #[trigger] call_requires(f, (&a, &b))
    &&& forall|a: T, b: T, o: Ordering, p: Ordering|
        #[trigger] compares(f, a, b, o) && #[trigger] compares(f, a, b, p) ==> o == p
    &&& forall|a: T, b: T, o: Ordering, p: Ordering|
        #[trigger] compares(f, a, b, o) && #[trigger] compares(f, b, a, p) ==> p == opposite(o)
    &&& forall|a: T, b: T, c: T, o: Ordering, p: Ordering, q: Ordering|
        #[trigger] compares(f, a, b, o) && #[trigger] compares(f, b, c, p) && #[trigger] compares(
            f,
            a,
            c,
            q,
        ) && o != Ordering::Greater && p != Ordering::Greater ==> q != Ordering::Greater
}

/// The sequence is ordered by the comparator.
pub open spec fn sorted_by<T, F: Fn(&T, &T) -> Ordering>(f: F, s: Seq<T>) -> bool {
    forall|i: int, j: int| 0 <= i < j < s.len() ==> not_after(f, #[trigger] s[i], #[trigger] s[j])
}

/// Every key that `key_fn` can give for an item of `s` is no greater than every key it can
/// give for a later item, under the keys' own order.
pub open spec fn sorted_by_key<T, K: Ord, F: Fn(&T) -> K>(key_fn: F, s: Seq<T>) -> bool {
    forall|i: int, j: int, ki: K, kj: K|
        0 <= i < j < s.len() && #[trigger] call_ensures(key_fn, (&s[i],), ki) && #[trigger] call_ensures(
            key_fn,
            (&s[j],),
            kj,
        ) ==> ki.cmp_spec(&kj) != Ordering::Greater
}

/// `after` rearranges `before` keeping items with equal keys in their order: some one-to-one
/// placement `p` puts item `i` of `after` at place `p[i]` of `before`, and of two items with
/// equal keys the earlier one in `after` comes from the earlier place.
pub open spec fn stable_by_key<T, K: Ord, F: Fn(&T) -> K>(key_fn: F, before: Seq<T>, after: Seq<T>) -> bool {
    exists|p: Seq<int>|
        {
            &&& p.len() == after.len()
            &&& forall|i: int| 0 <= i < p.len() ==> 0 <= #[trigger] p[i] < before.len() && after[i] == before[p[i]]
            &&& forall|i: int, j: int| 0 <= i < j < p.len() ==> #[trigger] p[i] != #[trigger] p[j]
            &&& forall|i: int, j: int, ki: K, kj: K|
                0 <= i < j < after.len() && #[trigger] call_ensures(key_fn, (&after[i],), ki) && #[trigger] call_ensures(
                    key_fn,
                    (&after[j],),
                    kj,
                ) && ki.cmp_spec(&kj) == Ordering::Equal ==> p[i] < p[j]
        }
}

/// `key_fn` accepts every item and gives the same key for an item every time.
pub open spec fn is_key_function<T, K, F: Fn(&T) -> K>(key_fn: F) -> bool {
    &&& forall|a: T| #[trigger] call_requires(key_fn, (&a,))
    &&& forall|a: T, k1: K, k2: K|
        #[trigger] call_ensures(key_fn, (&a,), k1) && #[trigger] call_ensures(key_fn, (&a,), k2)
            ==> k1 == k2
}

/// Calls rayon's `ParallelSliceMut::par_sort_unstable_by`. Trusted: the slice ends as a
/// rearrangement of its items, ordered by the comparator, which the caller shows to be a total
/// order (rayon's documentation leaves the order unspecified otherwise). Which of two equal
/// items comes first is left open.
#[verifier::external_body]
fn par_sort_unstable_by<T: Send, F: Fn(&T, &T) -> Ordering + Sync>(slice: &mut [T], compare: F)
    requires
        is_total_order(compare),
    ensures
        final(slice)@.to_multiset() == old(slice)@.to_multiset(),
        sorted_by(compare, final(slice)@),
{
    slice.par_sort_unstable_by(compare);
}

/// Calls rayon's `ParallelSliceMut::par_sort_by_cached_key`. Trusted: the slice ends as a
/// rearrangement of its items, ordered by their keys under `K`'s order, which the caller shows
/// to obey the laws of a total order, and items with equal keys keep their order (rayon
/// documents the sort as stable). That the key function runs at most once per item is not
/// stated.
#[verifier::external_body]
fn par_sort_by_cached_key<T: Send, K: Ord + Send, F: Fn(&T) -> K + Sync>(slice: &mut [T], key_fn: F)
    requires
        is_key_function(key_fn),
        vstd::laws_cmp::obeys_cmp::<K>(),
    ensures
        final(slice)@.to_multiset() == old(slice)@.to_multiset(),
        sorted_by_key(key_fn, final(slice)@),
        stable_by_key(key_fn, old(slice)@, final(slice)@),
{
    slice.par_sort_by_cached_key(key_fn);
}

/// Sorts the slice with the comparator; equal items may end in any order.
pub fn cfg_sort_unstable_by<T: Send, F: Fn(&T, &T) -> Ordering + Sync>(slice: &mut [T], sort_fn: F)
    requires
        is_total_order(sort_fn),
    ensures
        final(slice)@.to_multiset() == old(slice)@.to_multiset(),
        final(slice)@.len() == old(slice)@.len(),
        sorted_by(sort_fn, final(slice)@),
{
    let ghost before = slice@;
    par_sort_unstable_by(slice, sort_fn);
    proof {
        vstd::seq_lib::to_multiset_len(before);
        vstd::seq_lib::to_multiset_len(slice@);
    }
}

/// Sorts the slice by the keys that `key_fn` gives its items, keeping items with equal keys in
/// their order, computing each key once.
pub fn cfg_sort_by_cached_key<T: Send, F: Fn(&T) -> K + Sync, K: Ord + Send>(slice: &mut [T], key_fn: F)
    requires
        is_key_function(key_fn),
        vstd::laws_cmp::obeys_cmp::<K>(),
    ensures
        final(slice)@.to_multiset() == old(slice)@.to_multiset(),
        final(slice)@.len() == old(slice)@.len(),
        sorted_by_key(key_fn, final(slice)@),
        stable_by_key(key_fn, old(slice)@, final(slice)@),
{
    let ghost before = slice@;
    par_sort_by_cached_key(slice, key_fn);
    proof {
        vstd::seq_lib::to_multiset_len(before);
        vstd::seq_lib::to_multiset_len(slice@);
    }
}


} // verus!
