use vstd::prelude::*;

use crate::table::{
    last_at_or_before, lemma_last_at_or_before, lemma_last_at_or_before_bounds,
    lemma_last_at_or_before_monotone, strictly_increasing,
};

verus! {

/// The stake required to land one solution per epoch at various points in time.
///
/// Each entry `(timestamp, stake)` says that, starting from `timestamp`, a prover must
/// hold at least `stake` microcredits to land one solution; a prover with `n * stake`
/// may land up to `n` solutions per epoch.
pub const STAKE_REQUIREMENTS_PER_SOLUTION: [(i64, u64); 9] = [
    (1754006399i64, 100_000_000_000u64),
    (1761955199i64, 250_000_000_000u64),
    (1769903999i64, 500_000_000_000u64),
    (1777593599i64, 750_000_000_000u64),
    (1785542399i64, 1_000_000_000_000u64),
    (1793491199i64, 1_250_000_000_000u64),
    (1801439999i64, 1_500_000_000_000u64),
    (1809129599i64, 2_000_000_000_000u64),
    (1817078399i64, 2_500_000_000_000u64),
];

/// The stake table as a mathematical sequence.
pub open spec fn stake_table() -> Seq<(i64, u64)> {
    seq![
        (1754006399i64, 100_000_000_000u64),
        (1761955199i64, 250_000_000_000u64),
        (1769903999i64, 500_000_000_000u64),
        (1777593599i64, 750_000_000_000u64),
        (1785542399i64, 1_000_000_000_000u64),
        (1793491199i64, 1_250_000_000_000u64),
        (1801439999i64, 1_500_000_000_000u64),
        (1809129599i64, 2_000_000_000_000u64),
        (1817078399i64, 2_500_000_000_000u64),
    ]
}


/// The timestamps of the stake table.
pub open spec fn stake_timestamps() -> Seq<int> {
    stake_table().map_values(|e: (i64, u64)| e.0 as int)
}

/// The stake required per solution at time `t`, for `t` at or after the first timestamp.
pub open spec fn required_stake_per_solution(t: i64) -> u64 {
    stake_table()[last_at_or_before(stake_timestamps(), t as int)].1
}

/// The number of solutions per epoch allowed to a prover with `stake` at time `t`:
/// unrestricted before the first timestamp, otherwise the stake divided by the requirement.
pub open spec fn allowed_solutions(stake: u64, t: i64) -> u64 {
    if t < stake_table()[0].0 {
        u64::MAX
    } else {
        (stake / required_stake_per_solution(t)) as u64
    }
}

/// The stake table's timestamps strictly increase, and so do its requirements, none zero.
pub proof fn lemma_stake_table_well_formed()
    ensures
        stake_table().len() == 9,
        stake_timestamps().len() == 9,
        strictly_increasing(stake_timestamps()),
        forall|i: int| 0 <= i < 9 ==> #[trigger] stake_timestamps()[i] == stake_table()[i].0,
        forall|i: int, j: int| 0 <= i < j < 9 ==> stake_table()[i].1 < stake_table()[j].1,
        forall|i: int| 0 <= i < 9 ==> #[trigger] stake_table()[i].1 > 0,
{
    assert(stake_timestamps()[0] == stake_table()[0].0);
}

/// Binary search of `t` among the table's timestamps.
fn search_timestamp(table: &[(i64, u64)], t: i64) -> (r: Result<usize, usize>)
    requires
        forall|i: int, j: int| 0 <= i < j < table@.len() ==> table@[i].0 < table@[j].0,
    ensures
        match r {
            Ok(i) => i < table@.len() && table@[i as int].0 == t,
            Err(i) => i <= table@.len()
                && (forall|j: int| 0 <= j < i ==> table@[j].0 < t)
                && (forall|j: int| i <= j < table@.len() ==> t < table@[j].0),
        },
{
    let mut lo: usize = 0;
    let mut hi: usize = table.len();
    while lo < hi
        invariant
            lo <= hi <= table@.len(),
            forall|i: int, j: int| 0 <= i < j < table@.len() ==> table@[i].0 < table@[j].0,
            forall|j: int| 0 <= j < lo ==> table@[j].0 < t,
            forall|j: int| hi <= j < table@.len() ==> t < table@[j].0,
        decreases hi - lo,
    {
        let mid = lo + (hi - lo) / 2;
        let key = table[mid].0;
        if key == t {
            return Ok(mid);
        } else if key < t {
            lo = mid + 1;
        } else {
            hi = mid;
        }
    }
    Err(lo)
}

/// Returns the maximum number of allowed solutions per epoch based on the provided stake and timestamp.
pub fn maximum_allowed_solutions_per_epoch(prover_stake: u64, current_time: i64) -> (r: u64)
    ensures
        r == allowed_solutions(prover_stake, current_time),
{
    let table: &[(i64, u64)] = &STAKE_REQUIREMENTS_PER_SOLUTION;
    proof {
        lemma_stake_table_well_formed();
        assert(table@ == stake_table());
    }
    // Before the starting enforcement, the number of solutions is not restricted.
    let first_timestamp = match table.first() {
        Some(entry) => entry.0,
        None => i64::MAX,
    };
    if current_time < first_timestamp {
        return u64::MAX;
    }
    // Find the minimum stake required for one solution per epoch.
    let ghost keys = stake_timestamps();
    let minimum_stake_per_solution_per_epoch = match search_timestamp(table, current_time) {
        Ok(index) => {
            proof {
                lemma_last_at_or_before(keys, current_time as int, index as int);
            }
            table[index].1
        },
        Err(index) => {
            let index = index.saturating_sub(1);
            proof {
                lemma_last_at_or_before(keys, current_time as int, index as int);
            }
            table[index].1
        },
    };
    prover_stake / minimum_stake_per_solution_per_epoch
}

/// Before the first timestamp of the table, the number of solutions per epoch is unrestricted,
/// whatever the stake.
pub proof fn law_unrestricted_before_enforcement(stake: u64, t: i64)
    requires
        t < stake_table()[0].0,
    ensures
        allowed_solutions(stake, t) == u64::MAX,
{
}

/// From the timestamp of entry `i` up to (not including) the next timestamp, and from the last
/// timestamp on, a prover may land `stake / requirement_i` solutions per epoch.
pub proof fn law_requirement_of_window(stake: u64, t: i64, i: int)
    requires
        0 <= i < stake_table().len(),
        stake_table()[i].0 <= t,
        i + 1 == stake_table().len() || t < stake_table()[i + 1].0,
    ensures
        allowed_solutions(stake, t) == stake / stake_table()[i].1,
{
    lemma_stake_table_well_formed();
    lemma_last_at_or_before(stake_timestamps(), t as int, i);
}

/// A prover holding `n` times the stake required at time `t` may land exactly `n` solutions.
pub proof fn law_multiples_of_requirement(n: u64, t: i64)
    requires
        t >= stake_table()[0].0,
        n * required_stake_per_solution(t) <= u64::MAX,
    ensures
        allowed_solutions((n * required_stake_per_solution(t)) as u64, t) == n,
{
    lemma_stake_table_well_formed();
    lemma_last_at_or_before_bounds(stake_timestamps(), t as int);
    let d = required_stake_per_solution(t) as int;
    assert(d > 0);
    vstd::arithmetic::div_mod::lemma_div_multiples_vanish(n as int, d);
    assert(n * d == d * n) by (nonlinear_arith);
}

/// More stake never allows fewer solutions.
pub proof fn law_monotone_in_stake(s1: u64, s2: u64, t: i64)
    requires
        s1 <= s2,
    ensures
        allowed_solutions(s1, t) <= allowed_solutions(s2, t),
{
    if t >= stake_table()[0].0 {
        lemma_stake_table_well_formed();
        lemma_last_at_or_before_bounds(stake_timestamps(), t as int);
        vstd::arithmetic::div_mod::lemma_div_is_ordered(
            s1 as int,
            s2 as int,
            required_stake_per_solution(t) as int,
        );
    }
}

/// With the same stake, a later time never allows more solutions per epoch.
pub proof fn law_nonincreasing_in_time(stake: u64, t1: i64, t2: i64)
    requires
        t1 <= t2,
    ensures
        allowed_solutions(stake, t2) <= allowed_solutions(stake, t1),
{
    if t1 >= stake_table()[0].0 {
        lemma_stake_table_well_formed();
        let keys = stake_timestamps();
        lemma_last_at_or_before_bounds(keys, t1 as int);
        lemma_last_at_or_before_bounds(keys, t2 as int);
        lemma_last_at_or_before_monotone(keys, t1 as int, t2 as int);
        let i1 = last_at_or_before(keys, t1 as int);
        let i2 = last_at_or_before(keys, t2 as int);
        assert(stake_table()[i1].1 <= stake_table()[i2].1);
        vstd::arithmetic::div_mod::lemma_div_is_ordered_by_denominator(
            stake as int,
            stake_table()[i1].1 as int,
            stake_table()[i2].1 as int,
        );
    }
}

} // verus!
