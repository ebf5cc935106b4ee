use vstd::prelude::*;

use crate::solutions::{allowed_solutions, maximum_allowed_solutions_per_epoch};
use crate::subdag::{
    BatchCertificate, Subdag, SubdagError, atomicity_outcome, check_subdag_atomicity, check_subdag_leaves,
    check_subdag_quorum, leaves_outcome, quorum_outcome, rounds_positive,
};
use crate::table::first_occurrences;
use crate::types::{Address, Field};

verus! {

/// The number of blocks per epoch: an hour of ten-second blocks.
pub const NUM_BLOCKS_PER_EPOCH: u32 = 360;

/// The facts of the latest block that the ledger reads.
#[derive(Debug, Clone, Copy, PartialEq, Eq, Structural)]
pub struct BlockSummary {
    pub height: u32,
    pub round: u64,
    pub hash: Field,
    pub timestamp: i64,
    pub cumulative_weight: u128,
    pub cumulative_proof_target: u128,
    pub coinbase_target: u64,
    pub proof_target: u64,
    pub last_coinbase_target: u64,
    pub last_coinbase_timestamp: i64,
}

/// The number of times `a` occurs in `s`.
pub open spec fn occurrences(s: Seq<Address>, a: Address) -> nat
    decreases s.len(),
{
    if s.len() == 0 {
        0
    } else {
        occurrences(s.drop_last(), a) + if s.last() == a {
            1nat
        } else {
            0nat
        }
    }
}

/// The value of the first entry for `a`, if any.
pub open spec fn value_of<T>(entries: Seq<(Address, T)>, a: Address) -> Option<T>
    decreases entries.len(),
{
    if entries.len() == 0 {
        None
    } else if entries[0].0 == a {
        Some(entries[0].1)
    } else {
        value_of(entries.drop_first(), a)
    }
}

/// The keys of the entries are pairwise distinct.
pub open spec fn keys_distinct<T>(entries: Seq<(Address, T)>) -> bool {
    forall|i: int, j: int| 0 <= i < j < entries.len() ==> entries[i].0 != entries[j].0
}

/// With distinct keys, the value of `a` is that of the entry whose key is `a`.
pub proof fn lemma_value_of_entry<T>(entries: Seq<(Address, T)>, k: int)
    requires
        keys_distinct(entries),
        0 <= k < entries.len(),
    ensures
        value_of(entries, entries[k].0) == Some(entries[k].1),
    decreases k,
{
    if k > 0 {
        lemma_value_of_entry(entries.drop_first(), k - 1);
    }
}

/// When no entry has the key `a`, `a` has no value.
pub proof fn lemma_value_of_absent<T>(entries: Seq<(Address, T)>, a: Address)
    requires
        forall|k: int| 0 <= k < entries.len() ==> #[trigger] entries[k].0 != a,
    ensures
        value_of(entries, a) is None,
    decreases entries.len(),
{
    if entries.len() > 0 {
        lemma_value_of_absent(entries.drop_first(), a);
    }
}

/// The keys of the entries, in order.
pub open spec fn entry_keys<T>(entries: Seq<(Address, T)>) -> Seq<Address> {
    entries.map_values(|e: (Address, T)| e.0)
}

/// With distinct keys, an address has a value exactly when it is among the keys.
pub proof fn lemma_value_of_iff_key<T>(entries: Seq<(Address, T)>, a: Address)
    requires
        keys_distinct(entries),
    ensures
        value_of(entries, a) is Some <==> entry_keys(entries).contains(a),
{
    if entry_keys(entries).contains(a) {
        let k = choose|k: int| 0 <= k < entry_keys(entries).len() && entry_keys(entries)[k] == a;
        lemma_value_of_entry(entries, k);
    } else {
        assert forall|k: int| 0 <= k < entries.len() implies #[trigger] entries[k].0 != a by {
            assert(entry_keys(entries)[k] == entries[k].0);
        }
        lemma_value_of_absent(entries, a);
    }
}

/// Returns the position of the entry whose key is `a`, if any.
fn position_of<T>(entries: &Vec<(Address, T)>, a: &Address) -> (r: Option<usize>)
    ensures
        match r {
            Some(k) => k < entries@.len() && entries@[k as int].0 == *a,
            None => forall|k: int| 0 <= k < entries@.len() ==> #[trigger] entries@[k].0 != *a,
        },
{
    let mut k: usize = 0;
    while k < entries.len()
        invariant
            k <= entries@.len(),
            forall|j: int| 0 <= j < k ==> #[trigger] entries@[j].0 != *a,
        decreases entries@.len() - k,
    {
        if entries[k].0 == *a {
            return Some(k);
        }
        k = k + 1;
    }
    None
}

/// The number of solutions a prover may still land this epoch: the allowance for its stake at
/// time `t`, less the solutions it landed this epoch and the `additional` ones (both summed with
/// saturation), and at least 0.
pub open spec fn remaining_solutions(stake: u64, t: i64, in_epoch: u32, additional: u64) -> u64 {
    let allowed = allowed_solutions(stake, t);
    let used = if in_epoch + additional > u64::MAX {
        u64::MAX as int
    } else {
        in_epoch + additional
    };
    if allowed >= used {
        (allowed - used) as u64
    } else {
        0
    }
}

/// The state of the chain that the solution limits read: the latest block, the stake bonded by
/// each prover, and the number of solutions each prover landed in the current epoch.
pub struct Ledger {
    current_block: BlockSummary,
    bonded: Vec<(Address, u64)>,
    epoch_provers: Vec<(Address, u32)>,
}

impl Ledger {
    /// The latest block.
    pub closed spec fn block(&self) -> BlockSummary {
        self.current_block
    }

    /// The stake bonded by each prover.
    pub closed spec fn bonded(&self) -> Seq<(Address, u64)> {
        self.bonded@
    }

    /// The number of solutions each prover landed in the current epoch.
    pub closed spec fn prover_counts(&self) -> Seq<(Address, u32)> {
        self.epoch_provers@
    }

    /// The stake bonded by `prover` (0 if it has none).
    pub open spec fn stake_of(&self, prover: Address) -> u64 {
        match value_of(self.bonded(), prover) {
            Some(s) => s,
            None => 0,
        }
    }

    /// The number of solutions `prover` landed in the current epoch.
    pub open spec fn solutions_of(&self, prover: Address) -> u32 {
        match value_of(self.prover_counts(), prover) {
            Some(n) => n,
            None => 0,
        }
    }

    /// The number of solutions `prover` may still land, counting `additional` ones.
    pub open spec fn remaining(&self, prover: Address, additional: u64) -> u64 {
        remaining_solutions(self.stake_of(prover), self.block().timestamp, self.solutions_of(prover), additional)
    }

    /// Builds the ledger state from the latest block, the bonded stakes and the epoch provers.
    pub fn new(current_block: BlockSummary, bonded: Vec<(Address, u64)>, epoch_provers: Vec<(Address, u32)>) -> (r: Self)
        ensures
            r.block() == current_block,
            r.bonded() == bonded@,
            r.prover_counts() == epoch_provers@,
    {
        Ledger { current_block, bonded, epoch_provers }
    }

    /// Returns the stake bonded by the prover, or 0.
    fn bonded_amount(&self, prover: &Address) -> (r: u64)
        ensures
            r == self.stake_of(*prover),
    {
        let mut k: usize = 0;
        assert(self.bonded@.skip(0) == self.bonded@);
        while k < self.bonded.len()
            invariant
                k <= self.bonded@.len(),
                value_of(self.bonded@, *prover) == value_of(self.bonded@.skip(k as int), *prover),
            decreases self.bonded@.len() - k,
        {
            assert(self.bonded@.skip(k as int).drop_first() == self.bonded@.skip(k + 1));
            if self.bonded[k].0 == *prover {
                return self.bonded[k].1;
            }
            k = k + 1;
        }
        0
    }

    /// Returns the number of solutions the prover landed in the current epoch, or 0.
    fn epoch_solutions(&self, prover: &Address) -> (r: u32)
        ensures
            r == self.solutions_of(*prover),
    {
        let mut k: usize = 0;
        assert(self.epoch_provers@.skip(0) == self.epoch_provers@);
        while k < self.epoch_provers.len()
            invariant
                k <= self.epoch_provers@.len(),
                value_of(self.epoch_provers@, *prover) == value_of(self.epoch_provers@.skip(k as int), *prover),
            decreases self.epoch_provers@.len() - k,
        {
            assert(self.epoch_provers@.skip(k as int).drop_first() == self.epoch_provers@.skip(k + 1));
            if self.epoch_provers[k].0 == *prover {
                return self.epoch_provers[k].1;
            }
            k = k + 1;
        }
        0
    }

    /// Returns the number of remaining solutions a prover can submit in the current epoch.
    pub fn num_remaining_solutions(&self, prover_address: &Address, additional_solutions_in_block: u64) -> (r: u64)
        ensures
            r == self.remaining(*prover_address, additional_solutions_in_block),
    {
        // Fetch the prover's stake.
        let prover_stake = self.bonded_amount(prover_address);
        // Determine the maximum number of solutions allowed based on this prover's stake.
        let maximum_allowed_solutions = maximum_allowed_solutions_per_epoch(
            prover_stake,
            self.current_block.timestamp,
        );
        // Fetch the number of solutions the prover has earned rewards for in the current epoch.
        let prover_num_solutions_in_epoch = self.epoch_solutions(prover_address);
        // The total number of solutions of the prover in the epoch, including the current block.
        let num_solutions = (prover_num_solutions_in_epoch as u64).saturating_add(additional_solutions_in_block);
        // Return the number of remaining solutions.
        maximum_allowed_solutions.saturating_sub(num_solutions)
    }

    /// Returns `true` if the given prover address has reached their solution limit for the current epoch.
    pub fn is_solution_limit_reached(&self, prover_address: &Address, additional_solutions_in_block: u64) -> (r: bool)
        ensures
            r == (self.remaining(*prover_address, additional_solutions_in_block) == 0),
    {
        self.num_remaining_solutions(prover_address, additional_solutions_in_block) == 0
    }
}

/// Adds one occurrence of `a` to the counts: increments its entry, or appends one with count 1.
fn count_one(counts: &mut Vec<(Address, u64)>, a: &Address)
    requires
        keys_distinct(old(counts)@),
        match value_of(old(counts)@, *a) {
            Some(n) => n < u64::MAX,
            None => true,
        },
    ensures
        keys_distinct(final(counts)@),
        value_of(final(counts)@, *a) == Some(
            (match value_of(old(counts)@, *a) {
                Some(n) => n + 1,
                None => 1,
            }) as u64,
        ),
        forall|b: Address| b != *a ==> #[trigger] value_of(final(counts)@, b) == value_of(old(counts)@, b),
        forall|k: int| 0 <= k < old(counts)@.len() ==> #[trigger] final(counts)@[k].0 == old(counts)@[k].0,
        final(counts)@.len() == old(counts)@.len() + (if value_of(old(counts)@, *a) is Some {
            0int
        } else {
            1int
        }),
        value_of(old(counts)@, *a) is None ==> final(counts)@[old(counts)@.len() as int].0 == *a,
{
    let ghost before = counts@;
    match position_of(counts, a) {
        Some(k) => {
            proof {
                lemma_value_of_entry(before, k as int);
            }
            let n = counts[k].1;
            counts.set(k, (*a, n + 1));
            proof {
                assert(keys_distinct(counts@));
                lemma_value_of_entry(counts@, k as int);
                assert forall|b: Address| b != *a implies #[trigger] value_of(counts@, b) == value_of(before, b) by {
                    if exists|j: int| 0 <= j < before.len() && before[j].0 == b {
                        let j = choose|j: int| 0 <= j < before.len() && before[j].0 == b;
                        lemma_value_of_entry(before, j);
                        lemma_value_of_entry(counts@, j);
                    } else {
                        lemma_value_of_absent(before, b);
                        lemma_value_of_absent(counts@, b);
                    }
                }
            }
        },
        None => {
            proof {
                lemma_value_of_absent(before, *a);
            }
            counts.push((*a, 1));
            proof {
                assert(keys_distinct(counts@));
                lemma_value_of_entry(counts@, before.len() as int);
                assert forall|b: Address| b != *a implies #[trigger] value_of(counts@, b) == value_of(before, b) by {
                    if exists|j: int| 0 <= j < before.len() && before[j].0 == b {
                        let j = choose|j: int| 0 <= j < before.len() && before[j].0 == b;
                        lemma_value_of_entry(before, j);
                        lemma_value_of_entry(counts@, j);
                    } else {
                        lemma_value_of_absent(before, b);
                        lemma_value_of_absent(counts@, b);
                    }
                }
            }
        },
    }
}

/// The first block of the epoch of `height`.
pub open spec fn epoch_start(height: u32) -> u32 {
    (height - height % NUM_BLOCKS_PER_EPOCH) as u32
}

/// Returns the first and the last height of the blocks of the current epoch, for the given
/// current height.
pub fn epoch_block_heights(current_block_height: u32) -> (r: (u32, u32))
    ensures
        r == (epoch_start(current_block_height), current_block_height),
        r.0 % NUM_BLOCKS_PER_EPOCH == 0,
        r.0 <= current_block_height < r.0 + NUM_BLOCKS_PER_EPOCH,
{
    let start_of_epoch = current_block_height.saturating_sub(current_block_height % NUM_BLOCKS_PER_EPOCH);
    (start_of_epoch, current_block_height)
}

/// The prover addresses of the solutions of the given blocks, block after block; a block
/// whose solutions could not be read (`None`) counts as one without solutions.
pub open spec fn solution_addresses(blocks: Seq<Option<Vec<Address>>>) -> Seq<Address> {
    blocks.map_values(
        |b: Option<Vec<Address>>|
            match b {
                Some(v) => v@,
                None => Seq::empty(),
            },
    ).flatten()
}

/// Collects the prover addresses of the solutions of the blocks of the epoch, given for each
/// block its solutions' addresses, or `None` where they could not be read.
pub fn epoch_solution_addresses(blocks: &Vec<Option<Vec<Address>>>) -> (r: Vec<Address>)
    ensures
        r@ == solution_addresses(blocks@),
{
    let mut out: Vec<Address> = Vec::new();
    let mut k: usize = 0;
    while k < blocks.len()
        invariant
            k <= blocks@.len(),
            out@ == solution_addresses(blocks@.take(k as int)),
        decreases blocks@.len() - k,
    {
        let ghost before = out@;
        if let Some(addresses) = &blocks[k] {
            let mut i: usize = 0;
            while i < addresses.len()
                invariant
                    i <= addresses@.len(),
                    out@ == before + addresses@.subrange(0, i as int),
                decreases addresses@.len() - i,
            {
                out.push(addresses[i]);
                i = i + 1;
                assert(out@ =~= before + addresses@.subrange(0, i as int));
            }
            assert(addresses@.subrange(0, i as int) =~= addresses@);
        }
        proof {
            let f = |b: Option<Vec<Address>>|
                match b {
                    Some(v) => v@,
                    None => Seq::<Address>::empty(),
                };
            let pieces = blocks@.take(k as int).map_values(f);
            assert(blocks@.take(k + 1).map_values(f) =~= pieces.push(f(blocks@[k as int])));
            Seq::lemma_flatten_push(pieces, f(blocks@[k as int]));
            assert(out@ =~= pieces.flatten() + f(blocks@[k as int]));
        }
        k = k + 1;
    }
    assert(blocks@.take(blocks@.len() as int) =~= blocks@);
    out
}

/// Counts the solutions of each prover, given the prover address of each solution of the
/// blocks of the current epoch: one entry per prover, in the order of their first solution.
pub fn load_epoch_provers(solution_addresses: &Vec<Address>) -> (r: Vec<(Address, u32)>)
    requires
        solution_addresses@.len() <= u32::MAX,
    ensures
        keys_distinct(r@),
        entry_keys(r@) == first_occurrences(solution_addresses@),
        forall|a: Address|
            #[trigger] value_of(r@, a) == (if occurrences(solution_addresses@, a) > 0 {
                Some(occurrences(solution_addresses@, a) as u32)
            } else {
                None
            }),
{
    let ghost all = solution_addresses@;
    let mut counts: Vec<(Address, u64)> = Vec::new();
    let mut k: usize = 0;
    while k < solution_addresses.len()
        invariant
            k <= all.len() <= u32::MAX,
            all == solution_addresses@,
            keys_distinct(counts@),
            forall|a: Address|
                #[trigger] value_of(counts@, a) == (if occurrences(all.take(k as int), a) > 0 {
                    Some(occurrences(all.take(k as int), a) as u64)
                } else {
                    None
                }),
            forall|a: Address| #[trigger] occurrences(all.take(k as int), a) <= k,
            entry_keys(counts@) == first_occurrences(all.take(k as int)),
        decreases all.len() - k,
    {
        let ghost before = counts@;
        let a = solution_addresses[k];
        assert(all.take(k + 1).drop_last() == all.take(k as int));
        assert(all.take(k + 1).last() == a);
        assert(value_of(before, a) is Some ==> value_of(before, a).unwrap() <= k);
        count_one(&mut counts, &a);
        proof {
            assert forall|b: Address| #[trigger] occurrences(all.take(k + 1), b) <= k + 1 by {
                assert(occurrences(all.take(k as int), b) <= k);
            }
            lemma_value_of_iff_key(before, a);
            if value_of(before, a) is Some {
                assert(entry_keys(counts@) =~= entry_keys(before));
            } else {
                assert(entry_keys(counts@) =~= entry_keys(before).push(a));
            }
        }
        k = k + 1;
    }
    // Narrow the counts to the map's value type.
    let mut epoch_provers: Vec<(Address, u32)> = Vec::new();
    let mut j: usize = 0;
    assert(all.take(all.len() as int) == all);
    while j < counts.len()
        invariant
            j <= counts@.len(),
            keys_distinct(counts@),
            forall|a: Address| #[trigger] occurrences(all, a) <= all.len() <= u32::MAX,
            forall|a: Address|
                #[trigger] value_of(counts@, a) == (if occurrences(all, a) > 0 {
                    Some(occurrences(all, a) as u64)
                } else {
                    None
                }),
            epoch_provers@.len() == j,
            forall|m: int| 0 <= m < j ==> #[trigger] epoch_provers@[m] == (counts@[m].0, counts@[m].1 as u32),
            entry_keys(counts@) == first_occurrences(all),
        decreases counts@.len() - j,
    {
        proof {
            lemma_value_of_entry(counts@, j as int);
        }
        let (a, n) = counts[j];
        assert(value_of(counts@, a) == Some(n));
        assert(occurrences(all, a) <= all.len());
        assert(n <= u32::MAX);
        let ghost before = epoch_provers@;
        epoch_provers.push((a, n as u32));
        proof {
            assert forall|m: int| 0 <= m < j + 1 implies #[trigger] epoch_provers@[m] == (counts@[m].0, counts@[m].1 as u32) by {
                if m < j {
                    assert(epoch_provers@[m] == before[m]);
                }
            }
        }
        j = j + 1;
    }
    proof {
        assert(entry_keys(epoch_provers@) =~= entry_keys(counts@));
        assert(keys_distinct(epoch_provers@));
        assert forall|a: Address|
            #[trigger] value_of(epoch_provers@, a) == (if occurrences(all, a) > 0 {
                Some(occurrences(all, a) as u32)
            } else {
                None
            }) by {
            if exists|m: int| 0 <= m < counts@.len() && counts@[m].0 == a {
                let m = choose|m: int| 0 <= m < counts@.len() && counts@[m].0 == a;
                lemma_value_of_entry(counts@, m);
                lemma_value_of_entry(epoch_provers@, m);
            } else {
                lemma_value_of_absent(counts@, a);
                lemma_value_of_absent(epoch_provers@, a);
            }
        }
    }
    epoch_provers
}

/// The prover of solution `k` of a block has reached its limit, counting the solutions before
/// it in the block.
pub open spec fn limit_reached_at(ledger: Ledger, provers: Seq<Address>, k: int) -> bool {
    ledger.remaining(provers[k], occurrences(provers.take(k), provers[k]) as u64) == 0
}

/// The occurrences of `a` among the first `k` elements never exceed `k`.
proof fn lemma_occurrences_bound(s: Seq<Address>, a: Address)
    ensures
        occurrences(s, a) <= s.len(),
    decreases s.len(),
{
    if s.len() > 0 {
        lemma_occurrences_bound(s.drop_last(), a);
    }
}

/// An element that occurs has a last occurrence, before which it occurs one time fewer.
proof fn lemma_last_occurrence(s: Seq<Address>, a: Address) -> (k: int)
    requires
        occurrences(s, a) > 0,
    ensures
        0 <= k < s.len(),
        s[k] == a,
        occurrences(s.take(k), a) + 1 == occurrences(s, a),
    decreases s.len(),
{
    if s.last() == a {
        assert(s.take(s.len() - 1) == s.drop_last());
        s.len() - 1
    } else {
        let k = lemma_last_occurrence(s.drop_last(), a);
        assert(s.drop_last().take(k) == s.take(k));
        k
    }
}

impl Ledger {
    /// Checks that the provers of a block's solutions stay within their solution limits: each
    /// solution's prover, counting its earlier solutions in the block, must not have reached its
    /// limit. Returns the first prover that has.
    pub fn check_solution_limits(&self, solution_provers: &Vec<Address>) -> (r: Result<(), Address>)
        ensures
            match r {
                Ok(()) => forall|k: int|
                    0 <= k < solution_provers@.len() ==> !#[trigger] limit_reached_at(*self, solution_provers@, k),
                Err(a) => exists|k: int|
                    0 <= k < solution_provers@.len() && solution_provers@[k] == a && #[trigger] limit_reached_at(
                        *self,
                        solution_provers@,
                        k,
                    ) && forall|j: int| 0 <= j < k ==> !#[trigger] limit_reached_at(*self, solution_provers@, j),
            },
    {
        let ghost all = solution_provers@;
        let mut accepted_solutions: Vec<(Address, u64)> = Vec::new();
        let mut k: usize = 0;
        while k < solution_provers.len()
            invariant
                k <= all.len(),
                all == solution_provers@,
                keys_distinct(accepted_solutions@),
                forall|a: Address|
                    #[trigger] value_of(accepted_solutions@, a) == (if occurrences(all.take(k as int), a) > 0 {
                        Some(occurrences(all.take(k as int), a) as u64)
                    } else {
                        None
                    }),
                forall|j: int| 0 <= j < k ==> !#[trigger] limit_reached_at(*self, all, j),
            decreases all.len() - k,
        {
            let prover_address = solution_provers[k];
            proof {
                lemma_occurrences_bound(all.take(k as int), prover_address);
            }
            let num_accepted_solutions = match position_of(&accepted_solutions, &prover_address) {
                Some(p) => accepted_solutions[p].1,
                None => 0,
            };
            proof {
                if exists|p: int| 0 <= p < accepted_solutions@.len() && accepted_solutions@[p].0 == prover_address {
                    let p = choose|p: int| 0 <= p < accepted_solutions@.len() && accepted_solutions@[p].0 == prover_address;
                    lemma_value_of_entry(accepted_solutions@, p);
                } else {
                    lemma_value_of_absent(accepted_solutions@, prover_address);
                }
                assert(num_accepted_solutions == occurrences(all.take(k as int), prover_address));
            }
            // Check if the prover has reached their solution limit.
            if self.is_solution_limit_reached(&prover_address, num_accepted_solutions) {
                assert(limit_reached_at(*self, all, k as int));
                return Err(prover_address);
            }
            // Track the already accepted solutions.
            assert(all.take(k + 1).drop_last() == all.take(k as int));
            assert(all.take(k + 1).last() == prover_address);
            count_one(&mut accepted_solutions, &prover_address);
            k = k + 1;
        }
        Ok(())
    }
}

/// A block that passes the solution limits never lets a prover land more solutions this epoch
/// than its stake allows: for a prover of the block, its solutions in the epoch plus those in
/// the block stay within its allowance.
pub proof fn law_block_solutions_within_allowance(ledger: Ledger, provers: Seq<Address>, a: Address)
    requires
        forall|k: int| 0 <= k < provers.len() ==> !#[trigger] limit_reached_at(ledger, provers, k),
        occurrences(provers, a) > 0,
        provers.len() <= usize::MAX,
    ensures
        ledger.solutions_of(a) + occurrences(provers, a) <= allowed_solutions(ledger.stake_of(a), ledger.block().timestamp),
{
    let k = lemma_last_occurrence(provers, a);
    lemma_occurrences_bound(provers.take(k), a);
    assert(!limit_reached_at(ledger, provers, k));
    let n = occurrences(provers.take(k), a);
    assert(n < u64::MAX);
    assert(ledger.remaining(a, n as u64) != 0);
}

/// With the same prover, counting more solutions never leaves more remaining.
pub proof fn law_remaining_nonincreasing(ledger: Ledger, prover: Address, a1: u64, a2: u64)
    requires
        a1 <= a2,
    ensures
        ledger.remaining(prover, a2) <= ledger.remaining(prover, a1),
        ledger.remaining(prover, a1) <= allowed_solutions(ledger.stake_of(prover), ledger.block().timestamp),
{
}

/// The facts of a candidate block that the ledger checks.
pub struct BlockCandidate {
    pub height: u32,
    pub round: u64,
    pub hash: Field,
    pub timestamp: i64,
    /// The IDs of the block's solutions.
    pub solution_ids: Vec<Field>,
    /// The prover of each of the block's solutions, in order.
    pub solution_provers: Vec<Address>,
    /// The subdag of a quorum block; `None` for a beacon block.
    pub subdag: Option<Subdag>,
}

/// Why a candidate block is not a valid next block.
#[derive(Debug, Clone, Copy, PartialEq, Eq, Structural)]
pub enum BlockError {
    /// The block's height is not the latest height plus one.
    InvalidHeight(u32),
    /// The block hash already exists in the ledger.
    DuplicateBlockHash(Field),
    /// The solution ID already exists in the ledger.
    DuplicateSolution(Field),
    /// The block failed speculation or its own verification.
    InvalidBlock,
    /// The prover has reached their solution limit for the current epoch.
    SolutionLimitReached(Address),
    /// The block's subdag is malformed.
    Subdag(SubdagError),
    /// The solution ID that the block expects to exist is not in the ledger.
    MissingSolution(Field),
    /// The transaction ID that the block expects to exist is not in the ledger.
    MissingTransaction(Field),
    /// The store could not answer.
    Storage,
}

/// The queries that the block checks make of the store: whether it holds a block hash, a
/// solution ID, a transaction ID, and a block for a certificate (`None` when it cannot answer).
pub struct StoreQueries<H, S, T, B> {
    pub contains_block_hash: H,
    pub contains_solution_id: S,
    pub contains_transaction_id: T,
    pub contains_block_for_certificate: B,
}

/// The store answers `answer` for `id`.
pub open spec fn answers<Q: Fn(&Field) -> Option<bool>>(query: Q, id: Field, answer: bool) -> bool {
    call_ensures(query, (&id,), Some(answer))
}

/// Every ID of `ids` is answered `answer`.
pub open spec fn all_answered<Q: Fn(&Field) -> Option<bool>>(query: Q, ids: Seq<Field>, answer: bool) -> bool {
    forall|k: int| 0 <= k < ids.len() ==> #[trigger] answers(query, ids[k], answer)
}

/// What checking `ids` against the store gives: `Ok` when every ID is answered `expected`;
/// otherwise the first ID that is answered differently (`Err(Some(id))`) or that the store
/// cannot answer (`Err(None)`), every earlier ID having been answered `expected`.
pub open spec fn ids_outcome<Q: Fn(&Field) -> Option<bool>>(
    query: Q,
    ids: Seq<Field>,
    expected: bool,
    r: Result<(), Option<Field>>,
) -> bool {
    match r {
        Ok(()) => all_answered(query, ids, expected),
        Err(found) => exists|k: int|
            0 <= k < ids.len() && (forall|j: int| 0 <= j < k ==> #[trigger] answers(query, ids[j], expected))
                && #[trigger] ids[k] == ids[k] && match found {
                Some(id) => id == ids[k] && answers(query, id, !expected),
                None => call_ensures(query, (&ids[k],), None),
            },
    }
}

/// Checks each ID: returns `Err(Some(id))` for the first one that the store answers differently
/// from `expected`, `Err(None)` when the store cannot answer.
fn check_ids<Q: Fn(&Field) -> Option<bool>>(query: &Q, ids: &Vec<Field>, expected: bool) -> (r: Result<(), Option<Field>>)
    requires
        forall|id: Field| call_requires(*query, (&id,)),
    ensures
        ids_outcome(*query, ids@, expected, r),
{
    let mut k: usize = 0;
    while k < ids.len()
        invariant
            k <= ids@.len(),
            forall|id: Field| call_requires(*query, (&id,)),
            forall|j: int| 0 <= j < k ==> #[trigger] answers(*query, ids@[j], expected),
        decreases ids@.len() - k,
    {
        match query(&ids[k]) {
            Some(b) => {
                if b != expected {
                    assert(ids@[k as int] == ids@[k as int]);
                    return Err(Some(ids[k]));
                }
            },
            None => {
                assert(ids@[k as int] == ids@[k as int]);
                return Err(None);
            },
        }
        k = k + 1;
    }
    Ok(())
}

/// The subdag checks pass: every round meets its quorum, the subdag is atomic, and its leaves
/// point to certificates of previous blocks.
pub open spec fn subdag_checks_pass<
    K,
    C: Fn(u64) -> Option<K>,
    Q: Fn(&K, &Vec<Address>) -> bool,
    L: Fn(u64) -> Option<Address>,
    B: Fn(&Field) -> Option<bool>,
>(
    subdag: Subdag,
    latest_round: u64,
    block_round: u64,
    max_gc_rounds: u64,
    committee_at: C,
    quorum_reached: Q,
    leader_at: L,
    contains_block_for_certificate: B,
) -> bool {
    &&& quorum_outcome(subdag, committee_at, quorum_reached, Ok(()))
    &&& atomicity_outcome(subdag, latest_round, leader_at, Ok(()))
    &&& leaves_outcome(subdag, block_round, max_gc_rounds, contains_block_for_certificate, Ok(()))
}

/// The subdag checks fail with `e`: the quorum check fails with it, or the quorum check passes
/// and the atomicity check fails with it, or both pass and the leaf check fails with it.
pub open spec fn subdag_check_fails<
    K,
    C: Fn(u64) -> Option<K>,
    Q: Fn(&K, &Vec<Address>) -> bool,
    L: Fn(u64) -> Option<Address>,
    B: Fn(&Field) -> Option<bool>,
>(
    subdag: Subdag,
    latest_round: u64,
    block_round: u64,
    max_gc_rounds: u64,
    committee_at: C,
    quorum_reached: Q,
    leader_at: L,
    contains_block_for_certificate: B,
    e: SubdagError,
) -> bool {
    ||| quorum_outcome(subdag, committee_at, quorum_reached, Err(e))
    ||| quorum_outcome(subdag, committee_at, quorum_reached, Ok(())) && atomicity_outcome(
        subdag,
        latest_round,
        leader_at,
        Err(e),
    )
    ||| quorum_outcome(subdag, committee_at, quorum_reached, Ok(())) && atomicity_outcome(
        subdag,
        latest_round,
        leader_at,
        Ok(()),
    ) && leaves_outcome(subdag, block_round, max_gc_rounds, contains_block_for_certificate, Err(e))
}

impl Ledger {
    /// Returns the latest block height.
    pub fn latest_height(&self) -> (r: u32)
        ensures
            r == self.block().height,
    {
        self.current_block.height
    }

    /// Returns the latest round number.
    pub fn latest_round(&self) -> (r: u64)
        ensures
            r == self.block().round,
    {
        self.current_block.round
    }

    /// Returns the latest block timestamp.
    pub fn latest_timestamp(&self) -> (r: i64)
        ensures
            r == self.block().timestamp,
    {
        self.current_block.timestamp
    }

    /// Returns the latest epoch number.
    pub fn latest_epoch_number(&self) -> (r: u32)
        ensures
            r == self.block().height / NUM_BLOCKS_PER_EPOCH,
    {
        self.current_block.height / NUM_BLOCKS_PER_EPOCH
    }

    /// Returns the latest block.
    pub fn latest_block(&self) -> (r: BlockSummary)
        ensures
            r == self.block(),
    {
        self.current_block
    }

    /// Returns the latest block hash.
    pub fn latest_hash(&self) -> (r: Field)
        ensures
            r == self.block().hash,
    {
        self.current_block.hash
    }

    /// Returns the latest block cumulative weight.
    pub fn latest_cumulative_weight(&self) -> (r: u128)
        ensures
            r == self.block().cumulative_weight,
    {
        self.current_block.cumulative_weight
    }

    /// Returns the latest block cumulative proof target.
    pub fn latest_cumulative_proof_target(&self) -> (r: u128)
        ensures
            r == self.block().cumulative_proof_target,
    {
        self.current_block.cumulative_proof_target
    }

    /// Returns the latest block coinbase target.
    pub fn latest_coinbase_target(&self) -> (r: u64)
        ensures
            r == self.block().coinbase_target,
    {
        self.current_block.coinbase_target
    }

    /// Returns the latest block proof target.
    pub fn latest_proof_target(&self) -> (r: u64)
        ensures
            r == self.block().proof_target,
    {
        self.current_block.proof_target
    }

    /// Returns the last coinbase target.
    pub fn last_coinbase_target(&self) -> (r: u64)
        ensures
            r == self.block().last_coinbase_target,
    {
        self.current_block.last_coinbase_target
    }

    /// Returns the last coinbase timestamp.
    pub fn last_coinbase_timestamp(&self) -> (r: i64)
        ensures
            r == self.block().last_coinbase_timestamp,
    {
        self.current_block.last_coinbase_timestamp
    }

    /// Returns the provers and the number of solutions they have landed in the current epoch.
    pub fn epoch_provers(&self) -> (r: &Vec<(Address, u32)>)
        ensures
            r@ == self.prover_counts(),
    {
        &self.epoch_provers
    }

    /// The time between the latest block and a block with the given timestamp (saturating).
    pub fn time_since_last_block(&self, timestamp: i64) -> (r: i64)
        ensures
            r == (if timestamp - self.block().timestamp > i64::MAX {
                i64::MAX as int
            } else if timestamp - self.block().timestamp < i64::MIN {
                i64::MIN as int
            } else {
                timestamp - self.block().timestamp
            }),
    {
        let difference = timestamp as i128 - self.current_block.timestamp as i128;
        if difference > i64::MAX as i128 {
            i64::MAX
        } else if difference < i64::MIN as i128 {
            i64::MIN
        } else {
            difference as i64
        }
    }

    /// The first checks pass: the block's height follows the latest one, and the store knows
    /// neither its hash nor any of its solution IDs.
    pub open spec fn hash_and_solutions_new<
        H: Fn(&Field) -> Option<bool>,
        S: Fn(&Field) -> Option<bool>,
        T: Fn(&Field) -> Option<bool>,
        B: Fn(&Field) -> Option<bool>,
    >(&self, block: &BlockCandidate, store: &StoreQueries<H, S, T, B>) -> bool {
        &&& block.height == self.block().height + 1
        &&& answers(store.contains_block_hash, block.hash, false)
        &&& all_answered(store.contains_solution_id, block.solution_ids@, false)
    }

    /// The block's provers stay within their solution limits, and its subdag (if any) passes
    /// its checks.
    pub open spec fn limits_and_subdag_pass<
        H: Fn(&Field) -> Option<bool>,
        S: Fn(&Field) -> Option<bool>,
        T: Fn(&Field) -> Option<bool>,
        B: Fn(&Field) -> Option<bool>,
        K,
        C: Fn(u64) -> Option<K>,
        Q: Fn(&K, &Vec<Address>) -> bool,
        L: Fn(u64) -> Option<Address>,
    >(
        &self,
        block: &BlockCandidate,
        store: &StoreQueries<H, S, T, B>,
        max_gc_rounds: u64,
        committee_at: C,
        quorum_reached: Q,
        leader_at: L,
    ) -> bool {
        &&& forall|k: int|
            0 <= k < block.solution_provers@.len() ==> !#[trigger] limit_reached_at(
                *self,
                block.solution_provers@,
                k,
            )
        &&& block.subdag matches Some(subdag) ==> subdag_checks_pass(
            subdag,
            self.block().round,
            block.round,
            max_gc_rounds,
            committee_at,
            quorum_reached,
            leader_at,
            store.contains_block_for_certificate,
        )
    }

    /// Every check up to the subdag's passes, and then the store cannot answer for an ID that
    /// the block expects to exist: a solution ID, or (all those answered) a transaction ID.
    pub open spec fn storage_fails_late<
        H: Fn(&Field) -> Option<bool>,
        S: Fn(&Field) -> Option<bool>,
        T: Fn(&Field) -> Option<bool>,
        B: Fn(&Field) -> Option<bool>,
        K,
        C: Fn(u64) -> Option<K>,
        Q: Fn(&K, &Vec<Address>) -> bool,
        L: Fn(u64) -> Option<Address>,
    >(
        &self,
        block: &BlockCandidate,
        verified: Result<(Vec<Field>, Vec<Field>), ()>,
        store: &StoreQueries<H, S, T, B>,
        max_gc_rounds: u64,
        committee_at: C,
        quorum_reached: Q,
        leader_at: L,
    ) -> bool {
        &&& self.hash_and_solutions_new(block, store)
        &&& self.limits_and_subdag_pass(block, store, max_gc_rounds, committee_at, quorum_reached, leader_at)
        &&& match verified {
            Ok((solution_ids, transaction_ids)) => ids_outcome(
                store.contains_solution_id,
                solution_ids@,
                true,
                Err(None),
            ) || (all_answered(store.contains_solution_id, solution_ids@, true) && ids_outcome(
                store.contains_transaction_id,
                transaction_ids@,
                true,
                Err(None),
            )),
            Err(()) => false,
        }
    }

    /// Checks that the given block is a valid next block: its height follows the latest one, its
    /// hash and solution IDs are new, it passed speculation and its own verification (`verified`,
    /// with the solution and transaction IDs it expects to exist), its provers stay within their
    /// solution limits, its subdag (if any) meets quorum, is atomic and has valid leaves, and the
    /// IDs it expects to exist are in the ledger. The first failing check decides the error.
    pub fn check_next_block<
        H: Fn(&Field) -> Option<bool>,
        S: Fn(&Field) -> Option<bool>,
        T: Fn(&Field) -> Option<bool>,
        B: Fn(&Field) -> Option<bool>,
        K,
        C: Fn(u64) -> Option<K>,
        Q: Fn(&K, &Vec<Address>) -> bool,
        L: Fn(u64) -> Option<Address>,
    >(
        &self,
        block: &BlockCandidate,
        verified: Result<(Vec<Field>, Vec<Field>), ()>,
        store: &StoreQueries<H, S, T, B>,
        max_gc_rounds: u64,
        committee_at: C,
        quorum_reached: Q,
        leader_at: L,
    ) -> (r: Result<(), BlockError>)
        requires
            forall|id: Field| call_requires(store.contains_block_hash, (&id,)),
            forall|id: Field| call_requires(store.contains_solution_id, (&id,)),
            forall|id: Field| call_requires(store.contains_transaction_id, (&id,)),
            forall|id: Field| call_requires(store.contains_block_for_certificate, (&id,)),
            forall|round: u64| call_requires(committee_at, (round,)),
            forall|k: K, signers: Vec<Address>| call_requires(quorum_reached, (&k, &signers)),
            forall|round: u64| call_requires(leader_at, (round,)),
            block.subdag matches Some(subdag) ==> rounds_positive(subdag.rounds()),
        ensures
            block.height != self.block().height + 1 <==> r == Err::<(), BlockError>(
                BlockError::InvalidHeight(block.height),
            ),
            match r {
                Ok(()) => {
                    &&& self.hash_and_solutions_new(block, store)
                    &&& verified matches Ok((solution_ids, transaction_ids)) && all_answered(
                        store.contains_solution_id,
                        solution_ids@,
                        true,
                    ) && all_answered(store.contains_transaction_id, transaction_ids@, true)
                    &&& self.limits_and_subdag_pass(
                        block,
                        store,
                        max_gc_rounds,
                        committee_at,
                        quorum_reached,
                        leader_at,
                    )
                },
                Err(BlockError::InvalidHeight(h)) => h == block.height && block.height != self.block().height + 1,
                Err(BlockError::DuplicateBlockHash(h)) => block.height == self.block().height + 1 && h == block.hash
                    && answers(store.contains_block_hash, block.hash, true),
                Err(BlockError::DuplicateSolution(id)) => block.height == self.block().height + 1 && answers(
                    store.contains_block_hash,
                    block.hash,
                    false,
                ) && ids_outcome(store.contains_solution_id, block.solution_ids@, false, Err(Some(id))),
                Err(BlockError::InvalidBlock) => self.hash_and_solutions_new(block, store) && verified is Err,
                Err(BlockError::SolutionLimitReached(a)) => self.hash_and_solutions_new(block, store)
                    && verified is Ok && exists|k: int|
                    0 <= k < block.solution_provers@.len() && block.solution_provers@[k] == a
                        && #[trigger] limit_reached_at(*self, block.solution_provers@, k) && forall|j: int|
                        0 <= j < k ==> !#[trigger] limit_reached_at(*self, block.solution_provers@, j),
                Err(BlockError::Subdag(e)) => {
                    &&& self.hash_and_solutions_new(block, store)
                    &&& verified is Ok
                    &&& forall|k: int|
                        0 <= k < block.solution_provers@.len() ==> !#[trigger] limit_reached_at(
                            *self,
                            block.solution_provers@,
                            k,
                        )
                    &&& block.subdag matches Some(subdag) && subdag_check_fails(
                        subdag,
                        self.block().round,
                        block.round,
                        max_gc_rounds,
                        committee_at,
                        quorum_reached,
                        leader_at,
                        store.contains_block_for_certificate,
                        e,
                    )
                },
                Err(BlockError::MissingSolution(id)) => {
                    &&& self.hash_and_solutions_new(block, store)
                    &&& self.limits_and_subdag_pass(
                        block,
                        store,
                        max_gc_rounds,
                        committee_at,
                        quorum_reached,
                        leader_at,
                    )
                    &&& verified matches Ok((solution_ids, _)) && ids_outcome(
                        store.contains_solution_id,
                        solution_ids@,
                        true,
                        Err(Some(id)),
                    )
                },
                Err(BlockError::MissingTransaction(id)) => {
                    &&& self.hash_and_solutions_new(block, store)
                    &&& self.limits_and_subdag_pass(
                        block,
                        store,
                        max_gc_rounds,
                        committee_at,
                        quorum_reached,
                        leader_at,
                    )
                    &&& verified matches Ok((solution_ids, transaction_ids)) && all_answered(
                        store.contains_solution_id,
                        solution_ids@,
                        true,
                    ) && ids_outcome(store.contains_transaction_id, transaction_ids@, true, Err(Some(id)))
                },
                Err(BlockError::Storage) => {
                    &&& block.height == self.block().height + 1
                    &&& {
                        ||| call_ensures(store.contains_block_hash, (&block.hash,), None)
                        ||| answers(store.contains_block_hash, block.hash, false) && ids_outcome(
                            store.contains_solution_id,
                            block.solution_ids@,
                            false,
                            Err(None),
                        )
                        ||| self.storage_fails_late(
                            block,
                            verified,
                            store,
                            max_gc_rounds,
                            committee_at,
                            quorum_reached,
                            leader_at,
                        )
                    }
                },
            },
    {
        // Check that this is actually the next block.
        if block.height as u64 != self.current_block.height as u64 + 1 {
            return Err(BlockError::InvalidHeight(block.height));
        }
        // Ensure the block hash does not already exist.
        match (store.contains_block_hash)(&block.hash) {
            Some(false) => {},
            Some(true) => return Err(BlockError::DuplicateBlockHash(block.hash)),
            None => return Err(BlockError::Storage),
        }
        // Ensure the solutions do not already exist.
        match check_ids(&store.contains_solution_id, &block.solution_ids, false) {
            Ok(()) => {},
            Err(Some(id)) => return Err(BlockError::DuplicateSolution(id)),
            Err(None) => return Err(BlockError::Storage),
        }
        // Ensure speculation over the transactions and the block's own verification succeeded.
        let (expected_existing_solution_ids, expected_existing_transaction_ids) = match verified {
            Ok(ids) => ids,
            Err(()) => return Err(BlockError::InvalidBlock),
        };
        // Ensure that the provers are within their stake bounds.
        match self.check_solution_limits(&block.solution_provers) {
            Ok(()) => {},
            Err(prover) => return Err(BlockError::SolutionLimitReached(prover)),
        }
        if let Some(subdag) = &block.subdag {
            // Ensure the certificates in the block subdag have met quorum requirements.
            match check_subdag_quorum(subdag, committee_at, quorum_reached) {
                Ok(()) => {},
                Err(e) => return Err(BlockError::Subdag(e)),
            }
            // Determine if the block subdag is correctly constructed and is not a combination of multiple subdags.
            match check_subdag_atomicity(subdag, self.current_block.round, leader_at) {
                Ok(()) => {},
                Err(e) => return Err(BlockError::Subdag(e)),
            }
            // Ensure that all leafs of the subdag point to valid batches in other subdags/blocks.
            match check_subdag_leaves(subdag, block.round, max_gc_rounds, &store.contains_block_for_certificate) {
                Ok(()) => {},
                Err(e) => return Err(BlockError::Subdag(e)),
            }
        }
        // Ensure that each existing solution ID from the block exists in the ledger.
        match check_ids(&store.contains_solution_id, &expected_existing_solution_ids, true) {
            Ok(()) => {},
            Err(Some(id)) => return Err(BlockError::MissingSolution(id)),
            Err(None) => return Err(BlockError::Storage),
        }
        // Ensure that each existing transaction ID from the block exists in the ledger.
        match check_ids(&store.contains_transaction_id, &expected_existing_transaction_ids, true) {
            Ok(()) => {},
            Err(Some(id)) => return Err(BlockError::MissingTransaction(id)),
            Err(None) => return Err(BlockError::Storage),
        }
        Ok(())
    }
}

} // verus!
