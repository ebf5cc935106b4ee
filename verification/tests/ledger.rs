use snarkvm::ledger::{
    epoch_block_heights, epoch_solution_addresses, load_epoch_provers, BlockCandidate, BlockError, BlockSummary, Ledger, StoreQueries,
    NUM_BLOCKS_PER_EPOCH,
};
use snarkvm::subdag::{BatchCertificate, Subdag, SubdagError};
use snarkvm::types::{Address, Field};

fn f(n: u64) -> Field {
    Field(n, 0, 0, 0)
}

fn a(n: u64) -> Address {
    Address(n, 0, 0, 0)
}

fn block(height: u32, round: u64, timestamp: i64) -> BlockSummary {
    BlockSummary {
        height,
        round,
        hash: f(1000 + height as u64),
        timestamp,
        cumulative_weight: 7,
        cumulative_proof_target: 8,
        coinbase_target: 9,
        proof_target: 10,
        last_coinbase_target: 11,
        last_coinbase_timestamp: 12,
    }
}

/// At the first enforcement time one solution takes 100 credits of stake. Prover 1 has stake
/// for two solutions and has landed one; prover 2 has no stake.
fn sample_ledger() -> Ledger {
    Ledger::new(block(100, 200, 1754006399), vec![(a(1), 250_000_000_000), (a(3), 1_000_000_000_000)], vec![(a(1), 1)])
}

#[test]
fn remaining_solutions_per_prover() {
    let ledger = sample_ledger();
    assert_eq!(ledger.num_remaining_solutions(&a(1), 0), 1);
    assert_eq!(ledger.num_remaining_solutions(&a(1), 1), 0);
    assert_eq!(ledger.num_remaining_solutions(&a(1), u64::MAX), 0);
    assert_eq!(ledger.num_remaining_solutions(&a(2), 0), 0);
    assert_eq!(ledger.num_remaining_solutions(&a(3), 4), 6);
    assert!(!ledger.is_solution_limit_reached(&a(1), 0));
    assert!(ledger.is_solution_limit_reached(&a(1), 1));
    assert!(ledger.is_solution_limit_reached(&a(2), 0));
}

#[test]
fn remaining_solutions_before_enforcement() {
    let ledger = Ledger::new(block(1, 1, 0), vec![], vec![(a(1), 5)]);
    assert_eq!(ledger.num_remaining_solutions(&a(1), 2), u64::MAX - 7);
    assert_eq!(ledger.num_remaining_solutions(&a(2), 0), u64::MAX);
}

#[test]
fn block_solution_limits() {
    let ledger = sample_ledger();
    assert_eq!(ledger.check_solution_limits(&vec![a(1)]), Ok(()));
    assert_eq!(ledger.check_solution_limits(&vec![a(1), a(3), a(1)]), Err(a(1)));
    assert_eq!(ledger.check_solution_limits(&vec![a(3), a(2)]), Err(a(2)));
    assert_eq!(ledger.check_solution_limits(&vec![a(3); 10]), Ok(()));
    assert_eq!(ledger.check_solution_limits(&vec![a(3); 11]), Err(a(3)));
}

#[test]
fn epoch_heights() {
    assert_eq!(NUM_BLOCKS_PER_EPOCH, 360);
    assert_eq!(epoch_block_heights(725), (720, 725));
    assert_eq!(epoch_block_heights(720), (720, 720));
    assert_eq!(epoch_block_heights(0), (0, 0));
    assert_eq!(epoch_block_heights(359), (0, 359));
}

#[test]
fn epoch_provers_count_solutions() {
    assert_eq!(load_epoch_provers(&vec![a(1), a(2), a(1), a(1)]), vec![(a(1), 3), (a(2), 1)]);
    assert_eq!(load_epoch_provers(&vec![]), vec![]);
}

#[test]
fn latest_block_getters() {
    let ledger = sample_ledger();
    assert_eq!(ledger.latest_height(), 100);
    assert_eq!(ledger.latest_round(), 200);
    assert_eq!(ledger.latest_timestamp(), 1754006399);
    assert_eq!(ledger.time_since_last_block(1754006409), 10);
    assert_eq!(ledger.time_since_last_block(i64::MIN), i64::MIN);
    let early = Ledger::new(block(1, 1, -5), vec![], vec![]);
    assert_eq!(early.time_since_last_block(i64::MAX), i64::MAX);
}

fn cert(id: u64, round: u64, author: u64, prev: &[u64], signers: &[u64]) -> BatchCertificate {
    BatchCertificate {
        id: f(id),
        round,
        author: a(author),
        previous_certificate_ids: prev.iter().map(|p| f(*p)).collect(),
        signers: signers.iter().map(|s| a(*s)).collect(),
    }
}

fn candidate(height: u32, provers: Vec<Address>, subdag: Option<Subdag>) -> BlockCandidate {
    BlockCandidate {
        height,
        round: 206,
        hash: f(5000),
        timestamp: 1754006409,
        solution_ids: vec![f(600), f(601)],
        solution_provers: provers,
        subdag,
    }
}

fn sample_subdag() -> Subdag {
    Subdag::from_rounds(vec![
        (203, vec![cert(31, 203, 1, &[99], &[2, 3])]),
        (204, vec![cert(41, 204, 1, &[31], &[2, 3])]),
        (205, vec![cert(51, 205, 3, &[41], &[1, 2])]),
    ])
    .unwrap()
}

/// The store holds block hash 1100, solutions 500 and 501, transaction 700, and the block of
/// certificate 99.
fn store() -> StoreQueries<
    impl Fn(&Field) -> Option<bool>,
    impl Fn(&Field) -> Option<bool>,
    impl Fn(&Field) -> Option<bool>,
    impl Fn(&Field) -> Option<bool>,
> {
    StoreQueries {
        contains_block_hash: |h: &Field| Some(*h == f(1100)),
        contains_solution_id: |id: &Field| Some(*id == f(500) || *id == f(501)),
        contains_transaction_id: |id: &Field| Some(*id == f(700)),
        contains_block_for_certificate: |id: &Field| Some(*id == f(99)),
    }
}

fn verified() -> Result<(Vec<Field>, Vec<Field>), ()> {
    Ok((vec![f(500)], vec![f(700)]))
}

fn committee(_round: u64) -> Option<usize> {
    Some(3)
}

fn quorum(threshold: &usize, signers: &Vec<Address>) -> bool {
    signers.len() >= *threshold
}

fn leader(_round: u64) -> Option<Address> {
    Some(a(7))
}

#[test]
fn next_block_accepted() {
    let ledger = sample_ledger();
    let b = candidate(101, vec![a(1), a(3)], Some(sample_subdag()));
    assert_eq!(ledger.check_next_block(&b, verified(), &store(), 100, committee, quorum, leader), Ok(()));
    let beacon = candidate(101, vec![], None);
    assert_eq!(ledger.check_next_block(&beacon, verified(), &store(), 100, committee, quorum, leader), Ok(()));
}

#[test]
fn next_block_errors_in_order() {
    let ledger = sample_ledger();
    let s = store();
    let wrong_height = candidate(102, vec![], None);
    assert_eq!(
        ledger.check_next_block(&wrong_height, verified(), &s, 100, committee, quorum, leader),
        Err(BlockError::InvalidHeight(102))
    );
    let mut duplicate_hash = candidate(101, vec![], None);
    duplicate_hash.hash = f(1100);
    assert_eq!(
        ledger.check_next_block(&duplicate_hash, verified(), &s, 100, committee, quorum, leader),
        Err(BlockError::DuplicateBlockHash(f(1100)))
    );
    let mut duplicate_solution = candidate(101, vec![], None);
    duplicate_solution.solution_ids = vec![f(600), f(501)];
    assert_eq!(
        ledger.check_next_block(&duplicate_solution, verified(), &s, 100, committee, quorum, leader),
        Err(BlockError::DuplicateSolution(f(501)))
    );
    let b = candidate(101, vec![], None);
    assert_eq!(ledger.check_next_block(&b, Err(()), &s, 100, committee, quorum, leader), Err(BlockError::InvalidBlock));
    let over_limit = candidate(101, vec![a(1), a(1)], None);
    assert_eq!(
        ledger.check_next_block(&over_limit, verified(), &s, 100, committee, quorum, leader),
        Err(BlockError::SolutionLimitReached(a(1)))
    );
    let with_subdag = candidate(101, vec![], Some(sample_subdag()));
    let strict = |_round: u64| Some(4usize);
    assert_eq!(
        ledger.check_next_block(&with_subdag, verified(), &s, 100, strict, quorum, leader),
        Err(BlockError::Subdag(SubdagError::QuorumNotReached(203, f(31))))
    );
    let linked_leader = |_round: u64| Some(a(1));
    assert_eq!(
        ledger.check_next_block(&with_subdag, verified(), &s, 100, committee, quorum, linked_leader),
        Err(BlockError::Subdag(SubdagError::LinkedLeader(203)))
    );
    let missing_solution = Ok((vec![f(502)], vec![f(700)]));
    assert_eq!(
        ledger.check_next_block(&b, missing_solution, &s, 100, committee, quorum, leader),
        Err(BlockError::MissingSolution(f(502)))
    );
    let missing_transaction = Ok((vec![f(500)], vec![f(701)]));
    assert_eq!(
        ledger.check_next_block(&b, missing_transaction, &s, 100, committee, quorum, leader),
        Err(BlockError::MissingTransaction(f(701)))
    );
    let failing = StoreQueries {
        contains_block_hash: |_h: &Field| None,
        contains_solution_id: |_id: &Field| Some(false),
        contains_transaction_id: |_id: &Field| Some(true),
        contains_block_for_certificate: |_id: &Field| Some(true),
    };
    assert_eq!(ledger.check_next_block(&b, verified(), &failing, 100, committee, quorum, leader), Err(BlockError::Storage));
}

#[test]
fn next_block_subdag_leaves() {
    let ledger = sample_ledger();
    let with_subdag = candidate(101, vec![], Some(sample_subdag()));
    let forgetful = StoreQueries {
        contains_block_hash: |_h: &Field| Some(false),
        contains_solution_id: |id: &Field| Some(*id == f(500)),
        contains_transaction_id: |_id: &Field| Some(true),
        contains_block_for_certificate: |_id: &Field| Some(false),
    };
    assert_eq!(
        ledger.check_next_block(&with_subdag, verified(), &forgetful, 100, committee, quorum, leader),
        Err(BlockError::Subdag(SubdagError::UnknownLeafCertificate(202, f(99))))
    );
}

#[test]
fn remaining_never_grows_with_more_solutions() {
    let ledger = sample_ledger();
    let mut previous = ledger.num_remaining_solutions(&a(3), 0);
    assert_eq!(previous, 10);
    for additional in 1..15u64 {
        let r = ledger.num_remaining_solutions(&a(3), additional);
        assert!(r <= previous);
        previous = r;
    }
}

#[test]
fn latest_block_fields() {
    let ledger = Ledger::new(block(725, 3, 50), vec![], vec![(a(1), 2)]);
    assert_eq!(ledger.latest_epoch_number(), 2);
    assert_eq!(ledger.latest_block(), block(725, 3, 50));
    assert_eq!(ledger.latest_hash(), f(1725));
    assert_eq!(ledger.latest_cumulative_weight(), 7);
    assert_eq!(ledger.latest_cumulative_proof_target(), 8);
    assert_eq!(ledger.latest_coinbase_target(), 9);
    assert_eq!(ledger.latest_proof_target(), 10);
    assert_eq!(ledger.last_coinbase_target(), 11);
    assert_eq!(ledger.last_coinbase_timestamp(), 12);
    assert_eq!(ledger.epoch_provers(), &vec![(a(1), 2)]);
}

#[test]
fn epoch_addresses_skip_unreadable_blocks() {
    let blocks = vec![Some(vec![a(1), a(2)]), None, Some(vec![]), Some(vec![a(1)])];
    let addresses = epoch_solution_addresses(&blocks);
    assert_eq!(addresses, vec![a(1), a(2), a(1)]);
    assert_eq!(load_epoch_provers(&addresses), vec![(a(1), 2), (a(2), 1)]);
}
