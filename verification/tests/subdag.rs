use snarkvm::subdag::{
    certificate_signers, check_subdag_atomicity, check_subdag_leaves, check_subdag_quorum, is_linked,
    subdag_leaf_edges, BatchCertificate, Subdag, SubdagError,
};
use snarkvm::types::{Address, Field};

fn f(n: u64) -> Field {
    Field(n, 0, 0, 0)
}

fn a(n: u64) -> Address {
    Address(n, 0, 0, 0)
}

fn cert(id: u64, round: u64, author: u64, prev: &[u64], signers: &[u64]) -> BatchCertificate {
    BatchCertificate {
        id: f(id),
        round,
        author: a(author),
        previous_certificate_ids: prev.iter().map(|p| f(*p)).collect(),
        signers: signers.iter().map(|s| a(*s)).collect(),
    }
}

/// Rounds 3 to 5; the leader (id 51) is in round 5. Certificate 42 points to certificate 99,
/// which the subdag does not hold; certificate 33 is not reached from the leader.
fn sample_rounds() -> Vec<(u64, Vec<BatchCertificate>)> {
    vec![
        (3, vec![cert(31, 3, 1, &[], &[2, 3]), cert(32, 3, 2, &[], &[1, 3]), cert(33, 3, 4, &[], &[1, 2])]),
        (4, vec![cert(41, 4, 1, &[31, 32], &[2, 3]), cert(42, 4, 2, &[31, 99], &[1, 3])]),
        (5, vec![cert(51, 5, 3, &[41, 42], &[1, 2])]),
    ]
}

fn sample_subdag() -> Subdag {
    Subdag::from_rounds(sample_rounds()).unwrap()
}

#[test]
fn from_rounds_needs_ordered_rounds_and_a_leader() {
    assert!(Subdag::from_rounds(sample_rounds()).is_some());
    assert!(Subdag::from_rounds(vec![]).is_none());
    let mut unordered = sample_rounds();
    unordered.swap(0, 1);
    assert!(Subdag::from_rounds(unordered).is_none());
    let mut no_leader = sample_rounds();
    no_leader.push((6, vec![]));
    assert!(Subdag::from_rounds(no_leader).is_none());
}

#[test]
fn get_and_leader_certificate() {
    let subdag = sample_subdag();
    assert_eq!(subdag.get(4).unwrap().len(), 2);
    assert!(subdag.get(2).is_none());
    assert_eq!(subdag.leader_certificate().id, f(51));
}

#[test]
fn is_linked_follows_previous_certificate_ids() {
    let subdag = sample_subdag();
    let rounds = sample_rounds();
    let leader = &rounds[2].1[0];
    assert_eq!(is_linked(&subdag, &rounds[0].1[0], leader), Ok(true));
    assert_eq!(is_linked(&subdag, &rounds[0].1[1], leader), Ok(true));
    assert_eq!(is_linked(&subdag, &rounds[0].1[2], leader), Ok(false));
    assert_eq!(is_linked(&subdag, &rounds[1].1[1], leader), Ok(true));
    // A certificate is linked to itself.
    assert_eq!(is_linked(&subdag, leader, leader), Ok(true));
    // Walking down to round 1 needs round 2, which the subdag does not hold.
    let old = cert(11, 1, 1, &[], &[]);
    assert_eq!(is_linked(&subdag, &old, leader), Err(SubdagError::MissingRound(2)));
}

#[test]
fn atomicity_rejects_a_linked_earlier_leader() {
    let subdag = sample_subdag();
    // With the latest round 0, only round 3 is checked.
    assert_eq!(check_subdag_atomicity(&subdag, 0, |_r: u64| Some(a(1))), Err(SubdagError::LinkedLeader(3)));
    assert_eq!(check_subdag_atomicity(&subdag, 0, |_r: u64| Some(a(4))), Ok(()));
    assert_eq!(check_subdag_atomicity(&subdag, 0, |_r: u64| Some(a(9))), Ok(()));
    assert_eq!(check_subdag_atomicity(&subdag, 0, |_r: u64| None), Err(SubdagError::MissingCommittee(3)));
    // With the latest round 2, no round lies between.
    assert_eq!(check_subdag_atomicity(&subdag, 2, |_r: u64| None), Ok(()));
}

#[test]
fn leaf_edges_point_outside_the_subdag() {
    let subdag = sample_subdag();
    assert_eq!(subdag_leaf_edges(&subdag), vec![(3, f(99))]);
}

#[test]
fn leaves_must_be_in_previous_blocks() {
    let subdag = sample_subdag();
    let known = |id: &Field| Some(*id == f(99));
    assert_eq!(check_subdag_leaves(&subdag, 6, 100, known), Ok(()));
    let unknown = |_id: &Field| Some(false);
    assert_eq!(check_subdag_leaves(&subdag, 6, 100, unknown), Err(SubdagError::UnknownLeafCertificate(3, f(99))));
    let failing = |_id: &Field| None;
    assert_eq!(check_subdag_leaves(&subdag, 6, 100, failing), Err(SubdagError::StorageFailure(3, f(99))));
    // A leaf at the end of garbage collection is not checked: 3 + 4 - 1 <= 6.
    assert_eq!(check_subdag_leaves(&subdag, 6, 4, unknown), Ok(()));
    assert_eq!(check_subdag_leaves(&subdag, 5, 4, unknown), Err(SubdagError::UnknownLeafCertificate(3, f(99))));
}

#[test]
fn signers_include_the_author_once() {
    let c = cert(7, 1, 5, &[], &[1, 5, 1, 2]);
    let mut signers = certificate_signers(&c);
    signers.sort_by_key(|s| s.0);
    assert_eq!(signers, vec![a(1), a(2), a(5)]);
}

#[test]
fn quorum_is_checked_per_certificate() {
    let subdag = sample_subdag();
    let committee = |_r: u64| Some(3usize);
    let reached = |threshold: &usize, signers: &Vec<Address>| signers.len() >= *threshold;
    assert_eq!(check_subdag_quorum(&subdag, committee, reached), Ok(()));
    let strict = |_r: u64| Some(4usize);
    assert_eq!(check_subdag_quorum(&subdag, strict, reached), Err(SubdagError::QuorumNotReached(3, f(31))));
    let none = |r: u64| if r == 4 { None } else { Some(1usize) };
    assert_eq!(check_subdag_quorum(&subdag, none, reached), Err(SubdagError::MissingCommittee(4)));
}
