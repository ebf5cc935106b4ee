use vstd::prelude::*;
use rayon::iter::{IntoParallelRefIterator, ParallelIterator};

verus! {

/// Calls rayon's `par_iter` on the values and `ParallelIterator::find_any` with the predicate.
/// Trusted: a value that comes back is one of the values, one for which the predicate answered
/// `true`; `None` comes back only when the predicate answered `false` for every value (rayon
/// stops early only on a match, so every value is tried before `None`).
#[verifier::external_body]
fn par_find_any<'a, V: Sync, F: Fn(&V) -> bool + Sync>(values: &'a [V], closure: F) -> (r: Option<&'a V>)
    requires
        forall|v: V| #[trigger] call_requires(closure, (&v,)),
    ensures
        r matches Some(v) ==> values@.contains(*v) && call_ensures(closure, (v,), true),
        r is None ==> forall|i: int| 0 <= i < values@.len() ==> call_ensures(closure, (&values@[i],), false),
{
    values.par_iter().find_any(|v| closure(*v))
}

/// Calls rayon's `par_iter` on the values and `ParallelIterator::find_map_any` with the
/// closure. Trusted: a result that comes back is one that the closure gave for one of the
/// values; `None` comes back only when the closure gave `None` for every value.
#[verifier::external_body]
fn par_find_map_any<'a, V: Sync, V2: Sync + Send, F: Sync + Send + Fn(&'a V) -> Option<&'a V2>>(
    values: &'a [V],
    closure: F,
) -> (r: Option<&'a V2>)
    requires
        forall|v: &'a V| #[trigger] call_requires(closure, (v,)),
    ensures
        r matches Some(w) ==> exists|i: int|
            0 <= i < values@.len() && #[trigger] call_ensures(closure, (&values@[i],), Some(w)),
        r is None ==> forall|i: int| 0 <= i < values@.len() ==> call_ensures(closure, (&values@[i],), None),
{
    values.par_iter().find_map_any(closure)
}

/// Finds a value of the map (given as its values, in order) for which `closure` answers
/// `true`, if any; not necessarily the first such value. Nothing is found only when `closure`
/// answers `false` for every value.
pub fn cfg_find_value<'a, V: Sync, F: Sync + Fn(&V) -> bool>(values: &'a [V], closure: F) -> (r: Option<&'a V>)
    requires
        forall|v: V| #[trigger] call_requires(closure, (&v,)),
    ensures
        r matches Some(v) ==> values@.contains(*v) && call_ensures(closure, (v,), true),
        r is None ==> forall|i: int| 0 <= i < values@.len() ==> call_ensures(closure, (&values@[i],), false),
{
    par_find_any(values, closure)
}

/// Returns `closure(v)` for a value `v` of the map (given as its values, in order) where that
/// is not `None`, if any; not necessarily for the first such value. Nothing comes back only
/// when `closure` gives `None` for every value.
pub fn cfg_find_value_map<'a, V: Sync, V2: Sync + Send, F: Sync + Send + Fn(&'a V) -> Option<&'a V2>>(
    values: &'a [V],
    closure: F,
) -> (r: Option<&'a V2>)
    requires
        forall|v: &'a V| #[trigger] call_requires(closure, (v,)),
    ensures
        r matches Some(w) ==> exists|i: int|
            0 <= i < values@.len() && #[trigger] call_ensures(closure, (&values@[i],), Some(w)),
        r is None ==> forall|i: int| 0 <= i < values@.len() ==> call_ensures(closure, (&values@[i],), None),
{
    par_find_map_any(values, closure)
}

} // verus!
