use rand::rngs::StdRng;
use rand::{Rng, SeedableRng};
use snarkvm::solutions::{maximum_allowed_solutions_per_epoch, STAKE_REQUIREMENTS_PER_SOLUTION};

const ITERATIONS: u64 = 100;

fn test_rng() -> StdRng {
    StdRng::seed_from_u64(123456789)
}

#[test]
fn test_solution_limit_per_epoch() {
    let mut rng = test_rng();

    for _ in 0..ITERATIONS {
        for window in STAKE_REQUIREMENTS_PER_SOLUTION.windows(2) {
            let (prev_time, stake_per_solution) = window[0];
            let (next_time, _) = window[1];

            // Choose a time strictly between the steps.
            let timestamp = rng.gen_range(prev_time..next_time);
            // Generate a random prover stake.
            let prover_stake: u64 = rng.gen();
            let expected_num_solutions = prover_stake / stake_per_solution;

            assert_eq!(maximum_allowed_solutions_per_epoch(prover_stake, timestamp), expected_num_solutions,);
        }
    }
}

#[test]
fn test_solution_limit_before_enforcement() {
    let mut rng = test_rng();

    // Fetch the first timestamp from the table.
    let first_timestamp = STAKE_REQUIREMENTS_PER_SOLUTION.first().unwrap().0;
    let time_before_first = first_timestamp - 1;

    // Check that before enforcement, the number of solutions is unrestricted even without prover stake.
    let prover_stake = 0;
    assert_eq!(maximum_allowed_solutions_per_epoch(prover_stake, time_before_first), u64::MAX);

    // Check that before enforcement, the number of solutions is unrestricted for any prover stake.
    for _ in 0..ITERATIONS {
        assert_eq!(maximum_allowed_solutions_per_epoch(rng.gen(), rng.gen_range(0..time_before_first)), u64::MAX);
    }
}

#[test]
fn test_solution_limit_after_final_timestamp() {
    let mut rng = test_rng();
    let (last_timestamp, stake_per_solution) = *STAKE_REQUIREMENTS_PER_SOLUTION.last().unwrap();

    // Check that all timestamps after the last one are treated as the last one.
    for _ in 0..ITERATIONS {
        let prover_stake: u64 = rng.gen();
        let time_after_last = rng.gen_range(last_timestamp..i64::MAX);
        let expected_num_solutions = prover_stake / stake_per_solution;

        assert_eq!(maximum_allowed_solutions_per_epoch(prover_stake, time_after_last), expected_num_solutions);
    }
}

#[test]
fn test_solution_limit_exact_timestamps() {
    let mut rng = test_rng();
    // Check that the maximum allowed solutions per epoch is correct for each timestamp in the table.
    for &(timestamp, stake_per_solution) in STAKE_REQUIREMENTS_PER_SOLUTION.iter() {
        let expected_num_solutions = rng.gen_range(1..=100);
        let prover_stake = expected_num_solutions * stake_per_solution;

        assert_eq!(maximum_allowed_solutions_per_epoch(prover_stake, timestamp), expected_num_solutions,);
    }
}

#[test]
fn solution_limit_concrete_values() {
    // Before the first threshold: unrestricted.
    assert_eq!(maximum_allowed_solutions_per_epoch(0, 1754006398), u64::MAX);
    assert_eq!(maximum_allowed_solutions_per_epoch(5, i64::MIN), u64::MAX);
    // At the first threshold: 100 credits (in microcredits) per solution.
    assert_eq!(maximum_allowed_solutions_per_epoch(100_000_000_000, 1754006399), 1);
    assert_eq!(maximum_allowed_solutions_per_epoch(99_999_999_999, 1754006399), 0);
    assert_eq!(maximum_allowed_solutions_per_epoch(350_000_000_000, 1761955198), 3);
    // At the second threshold the requirement rises.
    assert_eq!(maximum_allowed_solutions_per_epoch(350_000_000_000, 1761955199), 1);
    // After the last threshold.
    assert_eq!(maximum_allowed_solutions_per_epoch(5_000_000_000_000, i64::MAX), 2);
    assert_eq!(maximum_allowed_solutions_per_epoch(u64::MAX, i64::MAX), u64::MAX / 2_500_000_000_000);
}

#[test]
fn solution_limit_laws_on_values() {
    // More stake never allows fewer solutions.
    let t = 1785542400;
    assert!(maximum_allowed_solutions_per_epoch(1_000_000_000_000, t) <= maximum_allowed_solutions_per_epoch(2_000_000_000_000, t));
    // Later never allows more solutions.
    let stake = 3_000_000_000_000;
    assert!(maximum_allowed_solutions_per_epoch(stake, 1817078399) <= maximum_allowed_solutions_per_epoch(stake, 1754006399));
}
