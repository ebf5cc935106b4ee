use vstd::prelude::*;

use crate::types::{Address, Field};

verus! {

/// A batch certificate, as the DAG checks read it.
#[derive(Debug, Clone)]
pub struct BatchCertificate {
    /// The certificate ID.
    pub id: Field,
    /// The round of the batch.
    pub round: u64,
    /// The author of the batch.
    pub author: Address,
    /// The IDs of the certificates of the previous round that the batch points to.
    pub previous_certificate_ids: Vec<Field>,
    /// The addresses that signed the batch (recovered from its signatures).
    pub signers: Vec<Address>,
}

/// Errors of the subdag checks.
#[derive(Debug, Clone, Copy, PartialEq, Eq, Structural)]
pub enum SubdagError {
    /// The subdag holds no certificates for this round.
    MissingRound(u64),
    /// No committee (or no leader) is known for this round.
    MissingCommittee(u64),
    /// The leader certificate of this earlier round is linked to the subdag's leader certificate.
    LinkedLeader(u64),
    /// The certificate of this round, with this ID, does not meet the quorum requirement.
    QuorumNotReached(u64, Field),
    /// A leaf points to this certificate of this round, which is in no previous block.
    UnknownLeafCertificate(u64, Field),
    /// The block store could not be queried for this certificate of this round.
    StorageFailure(u64, Field),
}

/// The certificates listed for round `r` in a table of rounds whose keys are unique.
pub open spec fn certificates_at(rounds: Seq<(u64, Vec<BatchCertificate>)>, r: int) -> Option<
    Seq<BatchCertificate>,
> {
    if exists|i: int| 0 <= i < rounds.len() && rounds[i].0 == r {
        Some(rounds[choose|i: int| 0 <= i < rounds.len() && rounds[i].0 == r].1@)
    } else {
        None
    }
}

/// The rounds of a subdag are listed in strictly increasing order.
pub open spec fn rounds_ordered(rounds: Seq<(u64, Vec<BatchCertificate>)>) -> bool {
    forall|i: int, j: int| 0 <= i < j < rounds.len() ==> rounds[i].0 < rounds[j].0
}

/// A subdag: the certificates of each round, in increasing order of rounds; the leader
/// certificate is the first certificate of the last (anchor) round.
pub struct Subdag {
    rounds: Vec<(u64, Vec<BatchCertificate>)>,
}

impl Subdag {
    /// The rounds of the subdag with their certificates.
    pub closed spec fn rounds(&self) -> Seq<(u64, Vec<BatchCertificate>)> {
        self.rounds@
    }

    #[verifier::type_invariant]
    closed spec fn well_formed(&self) -> bool {
        &&& rounds_ordered(self.rounds@)
        &&& self.rounds@.len() > 0
        &&& self.rounds@.last().1@.len() > 0
    }

    /// The leader certificate: the first certificate of the anchor round.
    pub open spec fn leader(&self) -> BatchCertificate {
        self.rounds().last().1@[0]
    }

    /// Builds a subdag from its rounds, if they are listed in strictly increasing order and
    /// the last one holds a certificate.
    pub fn from_rounds(rounds: Vec<(u64, Vec<BatchCertificate>)>) -> (r: Option<Subdag>)
        ensures
            r is Some <==> (rounds_ordered(rounds@) && rounds@.len() > 0 && rounds@.last().1@.len() > 0),
            r matches Some(s) ==> s.rounds() == rounds@,
    {
        let n = rounds.len();
        if n == 0 || rounds[n - 1].1.len() == 0 {
            return None;
        }
        let mut i: usize = 1;
        while i < n
            invariant
                1 <= i <= n,
                n == rounds@.len(),
                forall|a: int, b: int| 0 <= a < b < i ==> rounds@[a].0 < rounds@[b].0,
            decreases n - i,
        {
            if rounds[i - 1].0 >= rounds[i].0 {
                return None;
            }
            i = i + 1;
        }
        Some(Subdag { rounds })
    }

    /// Returns the certificates of the given round, if the subdag holds that round.
    pub fn get(&self, round: u64) -> (r: Option<&Vec<BatchCertificate>>)
        ensures
            match r {
                Some(cs) => certificates_at(self.rounds(), round as int) == Some(cs@),
                None => certificates_at(self.rounds(), round as int) is None,
            },
    {
        proof {
            use_type_invariant(self);
        }
        let n = self.rounds.len();
        let mut i: usize = 0;
        while i < n
            invariant
                i <= n,
                n == self.rounds@.len(),
                rounds_ordered(self.rounds@),
                forall|j: int| 0 <= j < i ==> self.rounds@[j].0 != round,
            decreases n - i,
        {
            if self.rounds[i].0 == round {
                let ghost rounds = self.rounds@;
                assert(exists|k: int| 0 <= k < rounds.len() && rounds[k].0 == round);
                let ghost k = choose|k: int| 0 <= k < rounds.len() && rounds[k].0 == round;
                assert(k == i as int);
                return Some(&self.rounds[i].1);
            }
            i = i + 1;
        }
        None
    }

    /// Returns the leader certificate.
    pub fn leader_certificate(&self) -> (r: &BatchCertificate)
        ensures
            *r == self.leader(),
    {
        proof {
            use_type_invariant(self);
        }
        let last = self.rounds.len() - 1;
        &self.rounds[last].1[0]
    }
}

/// Returns `true` if `id` is among `ids`.
fn contains_id(ids: &Vec<Field>, id: &Field) -> (r: bool)
    ensures
        r == ids@.contains(*id),
{
    let mut i: usize = 0;
    while i < ids.len()
        invariant
            i <= ids@.len(),
            forall|j: int| 0 <= j < i ==> ids@[j] != *id,
        decreases ids@.len() - i,
    {
        if ids[i] == *id {
            return true;
        }
        i = i + 1;
    }
    false
}

/// `path` goes from `current` backwards one round at a time: each certificate after the first
/// is listed in the subdag for its round (`current.round - k` for position `k`), and the
/// certificate before it links to its ID.
pub open spec fn is_path(
    rounds: Seq<(u64, Vec<BatchCertificate>)>,
    current: BatchCertificate,
    path: Seq<BatchCertificate>,
) -> bool {
    &&& path.len() >= 1
    &&& path[0] == current
    &&& forall|k: int|
        1 <= k < path.len() ==> (certificates_at(rounds, current.round - k) matches Some(cs) && cs.contains(
            #[trigger] path[k],
        )) && path[k - 1].previous_certificate_ids@.contains(path[k].id)
}

/// `p`, listed in round `r` of the subdag, is reached from `current` by a path.
pub open spec fn reached(
    rounds: Seq<(u64, Vec<BatchCertificate>)>,
    current: BatchCertificate,
    r: int,
    p: BatchCertificate,
) -> bool {
    &&& r < current.round
    &&& exists|path: Seq<BatchCertificate>|
        #[trigger] is_path(rounds, current, path) && path.len() == current.round - r + 1 && path.last() == p
}

/// There is a path from `previous` to `current`: a certificate with the ID of `previous` is
/// reached from `current` in the round of `previous` (or `previous` is `current`, by ID, when
/// it is not from an earlier round).
pub open spec fn linked(
    rounds: Seq<(u64, Vec<BatchCertificate>)>,
    previous: BatchCertificate,
    current: BatchCertificate,
) -> bool {
    if previous.round < current.round {
        exists|p: BatchCertificate| #[trigger] reached(rounds, current, previous.round as int, p) && p.id == previous.id
    } else {
        current.id == previous.id
    }
}

/// The highest round from `current.round - 1` down to `previous.round` that the subdag does not
/// list, if any.
pub open spec fn missing_round(
    rounds: Seq<(u64, Vec<BatchCertificate>)>,
    previous: BatchCertificate,
    current: BatchCertificate,
    r: u64,
) -> bool {
    &&& previous.round <= r < current.round
    &&& certificates_at(rounds, r as int) is None
    &&& forall|q: int| r < q < current.round ==> #[trigger] certificates_at(rounds, q) is Some
}

/// `x` is one of the certificates of `v`.
pub open spec fn listed(v: Seq<&BatchCertificate>, x: BatchCertificate) -> bool {
    exists|k: int| 0 <= k < v.len() && *v[k] == x
}

/// Some certificate of `v` links to `id`.
pub open spec fn links(v: Seq<&BatchCertificate>, id: Field) -> bool {
    exists|k: int| 0 <= k < v.len() && v[k].previous_certificate_ids@.contains(id)
}

/// `x` is among the first `i` certificates of `s`.
pub open spec fn among(s: Seq<BatchCertificate>, i: int, x: BatchCertificate) -> bool {
    exists|j: int| 0 <= j < i && s[j] == x
}

/// One step of the backward traversal: keeping the certificates of round `round - 1` that the
/// traversal of `round` links to gives the traversal of `round - 1`.
#[verifier::spinoff_prover]
#[verifier::rlimit(40)]
proof fn lemma_traversal_step(
    rounds: Seq<(u64, Vec<BatchCertificate>)>,
    current: BatchCertificate,
    round: int,
    traversal: Seq<&BatchCertificate>,
    certificates: Seq<BatchCertificate>,
    next: Seq<&BatchCertificate>,
)
    requires
        1 <= round <= current.round,
        certificates_at(rounds, round - 1) == Some(certificates),
        round == current.round ==> traversal.len() == 1 && *traversal[0] == current,
        round < current.round ==> forall|x: BatchCertificate|
            #[trigger] listed(traversal, x) <==> reached(rounds, current, round, x),
        forall|x: BatchCertificate|
            #![trigger listed(next, x)]
            #![trigger among(certificates, certificates.len() as int, x)]
            listed(next, x) <==> (among(certificates, certificates.len() as int, x) && links(traversal, x.id)),
        forall|x: BatchCertificate|
            #[trigger] among(certificates, certificates.len() as int, x) <==> certificates.contains(x),
    ensures
        forall|x: BatchCertificate| #[trigger] listed(next, x) <==> reached(rounds, current, round - 1, x),
{
    assert forall|x: BatchCertificate| #[trigger] listed(next, x) <==> reached(rounds, current, round - 1, x) by {
        assert(among(certificates, certificates.len() as int, x) <==> certificates.contains(x));
        if listed(next, x) {
            assert(links(traversal, x.id));
            let k = choose|k: int| 0 <= k < traversal.len() && traversal[k].previous_certificate_ids@.contains(x.id);
            let t = *traversal[k];
            let path_t = if round == current.round {
                seq![current]
            } else {
                assert(listed(traversal, t));
                choose|path: Seq<BatchCertificate>|
                    #[trigger] is_path(rounds, current, path) && path.len() == current.round - round + 1 && path.last() == t
            };
            if round == current.round {
                assert(is_path(rounds, current, path_t));
            }
            let path = path_t.push(x);
            assert forall|j: int| 1 <= j < path.len() implies (certificates_at(rounds, current.round - j) matches Some(cs) && cs.contains(
                #[trigger] path[j],
            )) && path[j - 1].previous_certificate_ids@.contains(path[j].id) by {
                if j < path_t.len() {
                    assert(path[j] == path_t[j]);
                }
            }
            assert(is_path(rounds, current, path));
        }
        if reached(rounds, current, round - 1, x) {
            let path = choose|path: Seq<BatchCertificate>|
                #[trigger] is_path(rounds, current, path) && path.len() == current.round - (round - 1) + 1 && path.last() == x;
            let last = path.len() - 1;
            assert(path[last] == x);
            let prefix = path.drop_last();
            let c = prefix.last();
            assert(path[last - 1] == c);
            assert(c.previous_certificate_ids@.contains(x.id));
            if round == current.round {
                assert(c == current);
                assert(traversal[0].previous_certificate_ids@.contains(x.id));
            } else {
                assert forall|j: int| 1 <= j < prefix.len() implies (certificates_at(rounds, current.round - j) matches Some(cs) && cs.contains(
                    #[trigger] prefix[j],
                )) && prefix[j - 1].previous_certificate_ids@.contains(prefix[j].id) by {
                    assert(prefix[j] == path[j]);
                }
                assert(is_path(rounds, current, prefix));
                assert(reached(rounds, current, round, c));
                assert(listed(traversal, c));
                let k = choose|k: int| 0 <= k < traversal.len() && *traversal[k] == c;
                assert(traversal[k].previous_certificate_ids@.contains(x.id));
            }
            assert(links(traversal, x.id));
        }
    }
}

/// Returns `true` if some certificate in `traversal` links to `id`.
fn links_to(traversal: &Vec<&BatchCertificate>, id: &Field) -> (r: bool)
    ensures
        r == links(traversal@, *id),
{
    let mut k: usize = 0;
    while k < traversal.len()
        invariant
            k <= traversal@.len(),
            forall|j: int| 0 <= j < k ==> !traversal@[j].previous_certificate_ids@.contains(*id),
        decreases traversal@.len() - k,
    {
        if contains_id(&traversal[k].previous_certificate_ids, id) {
            return true;
        }
        k = k + 1;
    }
    false
}

/// Returns `true` if there is a path from the previous certificate to the current certificate.
pub fn is_linked(
    subdag: &Subdag,
    previous_certificate: &BatchCertificate,
    current_certificate: &BatchCertificate,
) -> (r: Result<bool, SubdagError>)
    ensures
        match r {
            Ok(b) => (forall|q: int|
                previous_certificate.round <= q < current_certificate.round ==> #[trigger] certificates_at(
                    subdag.rounds(),
                    q,
                ) is Some) && b == linked(subdag.rounds(), *previous_certificate, *current_certificate),
            Err(SubdagError::MissingRound(m)) => missing_round(
                subdag.rounds(),
                *previous_certificate,
                *current_certificate,
                m,
            ),
            Err(_) => false,
        },
{
    let ghost rounds = subdag.rounds();
    let ghost current = *current_certificate;
    // Initialize the list containing the traversal.
    let mut traversal: Vec<&BatchCertificate> = Vec::new();
    traversal.push(current_certificate);
    let mut round = current_certificate.round;
    // Iterate over the rounds from the current certificate to the previous certificate.
    while round > previous_certificate.round
        invariant
            round <= current.round,
            round == current.round || previous_certificate.round <= round,
            rounds == subdag.rounds(),
            current == *current_certificate,
            round == current.round ==> traversal@.len() == 1 && *traversal@[0] == current,
            round < current.round ==> forall|x: BatchCertificate|
                #[trigger] listed(traversal@, x) <==> reached(rounds, current, round as int, x),
            forall|q: int| round <= q < current.round ==> #[trigger] certificates_at(rounds, q) is Some,
        decreases round,
    {
        let next_round = round - 1;
        // Retrieve all of the certificates for this past round.
        let certificates = match subdag.get(next_round) {
            Some(certificates) => certificates,
            None => return Err(SubdagError::MissingRound(next_round)),
        };
        // Keep the certificates that the traversal links to.
        let mut next: Vec<&BatchCertificate> = Vec::new();
        let mut i: usize = 0;
        while i < certificates.len()
            invariant
                i <= certificates@.len(),
                forall|x: BatchCertificate|
                    #![trigger listed(next@, x)]
                    #![trigger among(certificates@, i as int, x)]
                    listed(next@, x) <==> (among(certificates@, i as int, x) && links(traversal@, x.id)),
            decreases certificates@.len() - i,
        {
            let p = &certificates[i];
            let ghost old_next = next@;
            let keep = links_to(&traversal, &p.id);
            if keep {
                next.push(p);
            }
            proof {
                assert forall|x: BatchCertificate|
                    #![trigger listed(next@, x)]
                    #![trigger among(certificates@, i + 1, x)]
                    listed(next@, x) <==> (among(certificates@, i + 1, x) && links(traversal@, x.id)) by {
                    if listed(next@, x) {
                        let k = choose|k: int| 0 <= k < next@.len() && *next@[k] == x;
                        if keep && k == next@.len() - 1 {
                            assert(certificates@[i as int] == x);
                        } else {
                            assert(*old_next[k] == x);
                            assert(listed(old_next, x));
                            let j = choose|j: int| 0 <= j < i && certificates@[j] == x;
                            assert(certificates@[j] == x);
                        }
                    }
                    if among(certificates@, i + 1, x) && links(traversal@, x.id) {
                        let j = choose|j: int| 0 <= j < i + 1 && certificates@[j] == x;
                        if j == i {
                            assert(*next@[next@.len() - 1] == x);
                        } else {
                            assert(among(certificates@, i as int, x));
                            assert(listed(old_next, x));
                            let k = choose|k: int| 0 <= k < old_next.len() && *old_next[k] == x;
                            assert(*next@[k] == x);
                        }
                    }
                }
            }
            i = i + 1;
        }
        proof {
            assert forall|x: BatchCertificate| #[trigger] among(certificates@, certificates@.len() as int, x) <==> certificates@.contains(x) by {
                if certificates@.contains(x) {
                    let j = choose|j: int| 0 <= j < certificates@.len() && certificates@[j] == x;
                    assert(certificates@[j] == x);
                }
            }
            lemma_traversal_step(rounds, current, round as int, traversal@, certificates@, next@);
        }
        traversal = next;
        round = next_round;
    }
    // Check whether the previous certificate is in the traversal.
    let found = has_id(&traversal, &previous_certificate.id);
    proof {
        if found {
            let k = choose|k: int| 0 <= k < traversal@.len() && traversal@[k].id == previous_certificate.id;
            if previous_certificate.round < current.round {
                assert(listed(traversal@, *traversal@[k]));
                assert(reached(rounds, current, previous_certificate.round as int, *traversal@[k]));
            }
        } else if previous_certificate.round < current.round {
            assert forall|p: BatchCertificate| #[trigger] reached(rounds, current, previous_certificate.round as int, p) implies p.id != previous_certificate.id by {
                assert(listed(traversal@, p));
            }
        }
    }
    Ok(found)
}

/// Returns `true` if some certificate in `traversal` has the ID `id`.
fn has_id(traversal: &Vec<&BatchCertificate>, id: &Field) -> (r: bool)
    ensures
        r == exists|k: int| 0 <= k < traversal@.len() && traversal@[k].id == *id,
{
    let mut k: usize = 0;
    while k < traversal.len()
        invariant
            k <= traversal@.len(),
            forall|j: int| 0 <= j < k ==> traversal@[j].id != *id,
        decreases traversal@.len() - k,
    {
        if traversal[k].id == *id {
            return true;
        }
        k = k + 1;
    }
    false
}

/// The first certificate of `certificates` authored by `author`, if any.
pub open spec fn first_by_author(certificates: Seq<BatchCertificate>, author: Address) -> Option<
    BatchCertificate,
>
    decreases certificates.len(),
{
    if certificates.len() == 0 {
        None
    } else if certificates[0].author == author {
        Some(certificates[0])
    } else {
        first_by_author(certificates.drop_first(), author)
    }
}

/// The rounds that the atomicity check visits: from `anchor - 2` down to `latest + 2`, every
/// other round (both bounds saturating).
pub open spec fn atomicity_round(latest_round: u64, anchor_round: u64, r: u64) -> bool {
    let low = if latest_round + 2 > u64::MAX { u64::MAX as int } else { latest_round + 2 };
    let high = if anchor_round < 2 { 0int } else { anchor_round - 2 };
    low <= r <= high && (high - r) % 2 == 0
}

/// With `leader` the computed leader of round `r`, the subdag does not extend the leader
/// certificate of round `r`: either that leader has no certificate in round `r`, or its
/// certificate is not linked to the subdag's leader certificate.
pub open spec fn leader_round_ok(subdag: Subdag, r: u64, leader: Address) -> bool {
    match leader_certificate_at(subdag, r, leader) {
        None => true,
        Some(c) => (forall|q: int|
            c.round <= q < subdag.leader().round ==> #[trigger] certificates_at(subdag.rounds(), q) is Some)
            && !linked(subdag.rounds(), c, subdag.leader()),
    }
}

/// The certificate that `leader` authored in round `r` of the subdag, if any.
pub open spec fn leader_certificate_at(subdag: Subdag, r: u64, leader: Address) -> Option<BatchCertificate> {
    match certificates_at(subdag.rounds(), r as int) {
        None => None,
        Some(cs) => first_by_author(cs, leader),
    }
}

/// Round `r` of the atomicity check passes, for some leader that `leader_at` may return.
pub open spec fn atomicity_round_ok<L: Fn(u64) -> Option<Address>>(subdag: Subdag, leader_at: L, r: u64) -> bool {
    exists|l: Address| call_ensures(leader_at, (r,), Some(l)) && #[trigger] leader_round_ok(subdag, r, l)
}

/// Returns the first certificate of `certificates` authored by `author`.
fn find_by_author<'a>(certificates: &'a Vec<BatchCertificate>, author: &Address) -> (r: Option<&'a BatchCertificate>)
    ensures
        match r {
            Some(c) => first_by_author(certificates@, *author) == Some(*c),
            None => first_by_author(certificates@, *author) is None,
        },
{
    let mut i: usize = 0;
    assert(certificates@.skip(0) == certificates@);
    while i < certificates.len()
        invariant
            i <= certificates@.len(),
            first_by_author(certificates@, *author) == first_by_author(certificates@.skip(i as int), *author),
        decreases certificates@.len() - i,
    {
        assert(certificates@.skip(i as int).drop_first() == certificates@.skip(i + 1));
        if certificates[i].author == *author {
            return Some(&certificates[i]);
        }
        i = i + 1;
    }
    None
}

/// What the atomicity check gives: `Ok` when no checked round's leader certificate is linked to
/// the subdag's leader; otherwise the error of the highest failing round, every higher round
/// having passed.
pub open spec fn atomicity_outcome<L: Fn(u64) -> Option<Address>>(
    subdag: Subdag,
    latest_round: u64,
    leader_at: L,
    r: Result<(), SubdagError>,
) -> bool {
    match r {
        Ok(()) => forall|round: u64|
            atomicity_round(latest_round, subdag.leader().round, round) ==> #[trigger] atomicity_round_ok(
                subdag,
                leader_at,
                round,
            ),
        Err(e) => exists|round: u64|
            #![trigger atomicity_round(latest_round, subdag.leader().round, round)]
            {
                &&& atomicity_round(latest_round, subdag.leader().round, round)
                &&& forall|q: u64|
                    q > round && atomicity_round(latest_round, subdag.leader().round, q)
                        ==> #[trigger] atomicity_round_ok(subdag, leader_at, q)
                &&& match e {
                    SubdagError::MissingCommittee(m) => m == round && call_ensures(
                        leader_at,
                        (round,),
                        None,
                    ),
                    SubdagError::LinkedLeader(m) => m == round && exists|l: Address|
                        call_ensures(leader_at, (round,), Some(l)) && (#[trigger] leader_certificate_at(
                            subdag,
                            round,
                            l,
                        ) matches Some(c) && linked(subdag.rounds(), c, subdag.leader())),
                    SubdagError::MissingRound(m) => exists|l: Address|
                        call_ensures(leader_at, (round,), Some(l)) && (#[trigger] leader_certificate_at(
                            subdag,
                            round,
                            l,
                        ) matches Some(c) && missing_round(subdag.rounds(), c, subdag.leader(), m)),
                    _ => false,
                }
            },
    }
}

/// Checks that the subdag can not be split into multiple valid subdags: walking down from the
/// round two before the anchor round to the round two after the latest round, every other
/// round, the certificate that the round's leader (as `leader_at` computes it) authored there
/// must not be linked to the subdag's leader certificate.
pub fn check_subdag_atomicity<L: Fn(u64) -> Option<Address>>(
    subdag: &Subdag,
    latest_round: u64,
    leader_at: L,
) -> (r: Result<(), SubdagError>)
    requires
        forall|round: u64| call_requires(leader_at, (round,)),
    ensures
        atomicity_outcome(*subdag, latest_round, leader_at, r),
{
    let leader_certificate = subdag.leader_certificate();
    let anchor_round = leader_certificate.round;
    let low = latest_round.saturating_add(2);
    let high = anchor_round.saturating_sub(2);
    if low > high {
        return Ok(());
    }
    let mut round = high;
    loop
        invariant
            low <= round <= high,
            (high - round) % 2 == 0,
            low == (if latest_round + 2 > u64::MAX { u64::MAX as int } else { latest_round + 2 }),
            high == (if anchor_round < 2 { 0int } else { anchor_round - 2 }),
            anchor_round == subdag.leader().round,
            *leader_certificate == subdag.leader(),
            forall|r: u64| call_requires(leader_at, (r,)),
            forall|q: u64|
                q > round && atomicity_round(latest_round, subdag.leader().round, q)
                    ==> #[trigger] atomicity_round_ok(*subdag, leader_at, q),
        decreases round,
    {
        // Compute the leader for the commit round.
        let computed_leader = match leader_at(round) {
            Some(leader) => leader,
            None => {
                assert(atomicity_round(latest_round, subdag.leader().round, round));
                return Err(SubdagError::MissingCommittee(round));
            },
        };
        // Retrieve the previous leader certificate, if the leader authored one in this round.
        let previous_certificate = match subdag.get(round) {
            Some(certificates) => find_by_author(certificates, &computed_leader),
            None => None,
        };
        match previous_certificate {
            Some(previous_certificate) => {
                // Determine if there is a path between the previous certificate and the leader certificate.
                match is_linked(subdag, previous_certificate, leader_certificate) {
                    Ok(true) => {
                        assert(atomicity_round(latest_round, subdag.leader().round, round));
                        assert(leader_certificate_at(*subdag, round, computed_leader) == Some(*previous_certificate));
                        return Err(SubdagError::LinkedLeader(round));
                    },
                    Ok(false) => {
                        assert(leader_round_ok(*subdag, round, computed_leader));
                    },
                    Err(e) => {
                        assert(atomicity_round(latest_round, subdag.leader().round, round));
                        assert(leader_certificate_at(*subdag, round, computed_leader) == Some(*previous_certificate));
                        return Err(e);
                    },
                }
            },
            None => {
                assert(leader_round_ok(*subdag, round, computed_leader));
            },
        }
        assert(atomicity_round_ok(*subdag, leader_at, round));
        if round - low < 2 {
            assert forall|q: u64| atomicity_round(latest_round, subdag.leader().round, q) implies #[trigger] atomicity_round_ok(*subdag, leader_at, q) by {
                if q < round {
                    assert((high - q) % 2 == 0);
                }
            }
            return Ok(());
        }
        proof {
            assert forall|q: u64|
                q > round - 2 && atomicity_round(latest_round, subdag.leader().round, q)
                implies #[trigger] atomicity_round_ok(*subdag, leader_at, q) by {
                if q < round {
                    assert((high - q) % 2 == 0);
                    assert(q == round - 1);
                }
            }
        }
        round = round - 2;
    }
}

/// The atomicity check visits only the commit rounds: the rounds an even distance of at least
/// two below the anchor round, down to two after the latest round. A failure always names such
/// a round, and when `leader_at` answers each round one way, a subdag whose commit rounds all
/// pass passes, whatever the rounds at an odd distance from the anchor hold.
pub proof fn law_atomicity_checks_only_commit_rounds<L: Fn(u64) -> Option<Address>>(
    subdag: Subdag,
    latest_round: u64,
    leader_at: L,
    r: Result<(), SubdagError>,
)
    requires
        atomicity_outcome(subdag, latest_round, leader_at, r),
    ensures
        forall|m: u64|
            r == Err::<(), SubdagError>(SubdagError::LinkedLeader(m)) || r == Err::<(), SubdagError>(
                SubdagError::MissingCommittee(m),
            ) ==> latest_round + 2 <= m && m + 2 <= subdag.leader().round && (subdag.leader().round - m) % 2
                == 0 && forall|q: u64|
                m < q && q + 2 <= subdag.leader().round && (subdag.leader().round - q) % 2 == 0
                    ==> #[trigger] atomicity_round_ok(subdag, leader_at, q),
        r is Ok ==> forall|q: u64|
            latest_round + 2 <= q && q + 2 <= subdag.leader().round && (subdag.leader().round - q) % 2 == 0
                ==> #[trigger] atomicity_round_ok(subdag, leader_at, q),
        ({
            &&& forall|q: u64, a: Option<Address>, b: Option<Address>|
                #[trigger] call_ensures(leader_at, (q,), a) && #[trigger] call_ensures(leader_at, (q,), b) ==> a == b
            &&& forall|q: u64|
                latest_round + 2 <= q && q + 2 <= subdag.leader().round && (subdag.leader().round - q) % 2 == 0
                    ==> #[trigger] atomicity_round_ok(subdag, leader_at, q)
        }) ==> r is Ok,
{
    let anchor = subdag.leader().round;
    assert forall|q: u64| #[trigger] atomicity_round(latest_round, anchor, q) implies latest_round + 2 <= q && q + 2
        <= anchor && (anchor - q) % 2 == 0 by {
        let high = if anchor < 2 { 0int } else { anchor - 2 };
        assert((high - q) % 2 == 0);
    }
    assert forall|q: u64| latest_round + 2 <= q && q + 2 <= anchor && (anchor - q) % 2 == 0 implies #[trigger] atomicity_round(
        latest_round,
        anchor,
        q,
    ) by {
        let high = anchor - 2;
        assert((high - q) % 2 == 0);
    }
    let deterministic = forall|q: u64, a: Option<Address>, b: Option<Address>|
        #[trigger] call_ensures(leader_at, (q,), a) && #[trigger] call_ensures(leader_at, (q,), b) ==> a == b;
    let commit_rounds_pass = forall|q: u64|
        latest_round + 2 <= q && q + 2 <= anchor && (anchor - q) % 2 == 0 ==> #[trigger] atomicity_round_ok(
            subdag,
            leader_at,
            q,
        );
    if deterministic && commit_rounds_pass {
        if let Err(e) = r {
            let round = choose|round: u64|
                #![trigger atomicity_round(latest_round, anchor, round)]
                {
                    &&& atomicity_round(latest_round, anchor, round)
                    &&& forall|q: u64|
                        q > round && atomicity_round(latest_round, anchor, q)
                            ==> #[trigger] atomicity_round_ok(subdag, leader_at, q)
                    &&& match e {
                        SubdagError::MissingCommittee(m) => m == round && call_ensures(leader_at, (round,), None),
                        SubdagError::LinkedLeader(m) => m == round && exists|l: Address|
                            call_ensures(leader_at, (round,), Some(l)) && (#[trigger] leader_certificate_at(
                                subdag,
                                round,
                                l,
                            ) matches Some(c) && linked(subdag.rounds(), c, subdag.leader())),
                        SubdagError::MissingRound(m) => exists|l: Address|
                            call_ensures(leader_at, (round,), Some(l)) && (#[trigger] leader_certificate_at(
                                subdag,
                                round,
                                l,
                            ) matches Some(c) && missing_round(subdag.rounds(), c, subdag.leader(), m)),
                        _ => false,
                    }
                };
            assert(atomicity_round_ok(subdag, leader_at, round));
            let l = choose|l: Address| call_ensures(leader_at, (round,), Some(l)) && #[trigger] leader_round_ok(
                subdag,
                round,
                l,
            );
            match e {
                SubdagError::MissingCommittee(m) => {
                    assert(call_ensures(leader_at, (round,), None::<Address>));
                },
                SubdagError::LinkedLeader(m) => {
                    let l2 = choose|l2: Address|
                        call_ensures(leader_at, (round,), Some(l2)) && (#[trigger] leader_certificate_at(
                            subdag,
                            round,
                            l2,
                        ) matches Some(c) && linked(subdag.rounds(), c, subdag.leader()));
                    assert(Some(l2) == Some(l));
                },
                SubdagError::MissingRound(m) => {
                    let l2 = choose|l2: Address|
                        call_ensures(leader_at, (round,), Some(l2)) && (#[trigger] leader_certificate_at(
                            subdag,
                            round,
                            l2,
                        ) matches Some(c) && missing_round(subdag.rounds(), c, subdag.leader(), m));
                    assert(Some(l2) == Some(l));
                    assert(certificates_at(subdag.rounds(), m as int) is Some);
                },
                _ => {},
            }
        }
    }
}

/// Some certificate of the subdag has the ID `id`.
pub open spec fn in_subdag(rounds: Seq<(u64, Vec<BatchCertificate>)>, id: Field) -> bool {
    exists|i: int, j: int| 0 <= i < rounds.len() && 0 <= j < rounds[i].1@.len() && #[trigger] rounds[i].1@[j].id == id
}

/// `e` is an edge from certificate `c` to a certificate outside the subdag: `c` points to the
/// certificate `e.1`, which the subdag does not hold, of round `e.0 = c.round - 1`.
pub open spec fn edge_of(rounds: Seq<(u64, Vec<BatchCertificate>)>, c: BatchCertificate, e: (u64, Field)) -> bool {
    &&& c.previous_certificate_ids@.contains(e.1)
    &&& !in_subdag(rounds, e.1)
    &&& e.0 == c.round - 1
}

/// `e` is a leaf edge of the subdag: an edge from one of its certificates to one outside it.
pub open spec fn leaf_edge(rounds: Seq<(u64, Vec<BatchCertificate>)>, e: (u64, Field)) -> bool {
    exists|i: int, j: int|
        0 <= i < rounds.len() && 0 <= j < rounds[i].1@.len() && #[trigger] edge_of(rounds, rounds[i].1@[j], e)
}

/// Every certificate of the subdag is from a round after round 0.
pub open spec fn rounds_positive(rounds: Seq<(u64, Vec<BatchCertificate>)>) -> bool {
    forall|i: int, j: int| 0 <= i < rounds.len() && 0 <= j < rounds[i].1@.len() ==> #[trigger] rounds[i].1@[j].round > 0
}

/// Returns the IDs of all certificates of the subdag.
fn certificate_ids(subdag: &Subdag) -> (r: Vec<Field>)
    ensures
        forall|id: Field| r@.contains(id) <==> in_subdag(subdag.rounds(), id),
{
    let ghost rounds = subdag.rounds();
    let mut ids: Vec<Field> = Vec::new();
    let mut i: usize = 0;
    while i < subdag.rounds.len()
        invariant
            i <= rounds.len(),
            rounds == subdag.rounds@,
            forall|id: Field| ids@.contains(id) <==> exists|a: int, b: int|
                0 <= a < i && 0 <= b < rounds[a].1@.len() && #[trigger] rounds[a].1@[b].id == id,
        decreases rounds.len() - i,
    {
        let certificates = &subdag.rounds[i].1;
        let mut j: usize = 0;
        while j < certificates.len()
            invariant
                j <= certificates@.len(),
                i < rounds.len(),
                *certificates == rounds[i as int].1,
                forall|id: Field| ids@.contains(id) <==> (exists|a: int, b: int|
                    0 <= a < i && 0 <= b < rounds[a].1@.len() && #[trigger] rounds[a].1@[b].id == id)
                    || exists|b: int| 0 <= b < j && #[trigger] certificates@[b].id == id,
            decreases certificates@.len() - j,
        {
            let ghost old_ids = ids@;
            ids.push(certificates[j].id);
            proof {
                assert forall|id: Field| ids@.contains(id) <==> (exists|a: int, b: int|
                    0 <= a < i && 0 <= b < rounds[a].1@.len() && #[trigger] rounds[a].1@[b].id == id)
                    || exists|b: int| 0 <= b < j + 1 && #[trigger] certificates@[b].id == id by {
                    if ids@.contains(id) && id != certificates@[j as int].id {
                        let k = choose|k: int| 0 <= k < ids@.len() && ids@[k] == id;
                        assert(old_ids[k] == id);
                    }
                    if id == certificates@[j as int].id {
                        assert(ids@[ids@.len() - 1] == id);
                    }
                    if old_ids.contains(id) {
                        let k = choose|k: int| 0 <= k < old_ids.len() && old_ids[k] == id;
                        assert(ids@[k] == id);
                    }
                }
            }
            j = j + 1;
        }
        proof {
            assert forall|id: Field| ids@.contains(id) <==> exists|a: int, b: int|
                0 <= a < i + 1 && 0 <= b < rounds[a].1@.len() && #[trigger] rounds[a].1@[b].id == id by {
                if exists|b: int| 0 <= b < certificates@.len() && #[trigger] certificates@[b].id == id {
                    let b = choose|b: int| 0 <= b < certificates@.len() && #[trigger] certificates@[b].id == id;
                    assert(rounds[i as int].1@[b].id == id);
                }
                if exists|a: int, b: int| 0 <= a < i + 1 && 0 <= b < rounds[a].1@.len() && #[trigger] rounds[a].1@[b].id == id {
                    let (a, b) = choose|a: int, b: int| 0 <= a < i + 1 && 0 <= b < rounds[a].1@.len() && #[trigger] rounds[a].1@[b].id == id;
                    if a == i {
                        assert(certificates@[b].id == id);
                    }
                }
            }
        }
        i = i + 1;
    }
    ids
}

/// Appends to `out` the edges from `c` to the certificates that `ids` does not hold.
fn push_certificate_edges(out: &mut Vec<(u64, Field)>, c: &BatchCertificate, ids: &Vec<Field>)
    requires
        c.round > 0,
    ensures
        forall|e: (u64, Field)| #[trigger] final(out)@.contains(e) <==> (old(out)@.contains(e) || (
        c.previous_certificate_ids@.contains(e.1) && !ids@.contains(e.1) && e.0 == c.round - 1)),
{
    let mut k: usize = 0;
    while k < c.previous_certificate_ids.len()
        invariant
            k <= c.previous_certificate_ids@.len(),
            c.round > 0,
            forall|e: (u64, Field)| #[trigger] out@.contains(e) <==> (old(out)@.contains(e) || (
            (exists|m: int| 0 <= m < k && c.previous_certificate_ids@[m] == e.1) && !ids@.contains(e.1) && e.0 == c.round - 1)),
        decreases c.previous_certificate_ids@.len() - k,
    {
        let prev_id = c.previous_certificate_ids[k];
        let ghost before = out@;
        if !contains_id(ids, &prev_id) {
            out.push((c.round - 1, prev_id));
        }
        proof {
            assert forall|e: (u64, Field)| #[trigger] out@.contains(e) <==> (old(out)@.contains(e) || (
            (exists|m: int| 0 <= m < k + 1 && c.previous_certificate_ids@[m] == e.1) && !ids@.contains(e.1) && e.0 == c.round - 1)) by {
                if out@.contains(e) && !before.contains(e) {
                    assert(e == ((c.round - 1) as u64, prev_id));
                    assert(c.previous_certificate_ids@[k as int] == e.1);
                }
                if before.contains(e) {
                    let t = choose|t: int| 0 <= t < before.len() && before[t] == e;
                    assert(out@[t] == e);
                }
                if (exists|m: int| 0 <= m < k + 1 && c.previous_certificate_ids@[m] == e.1) && !ids@.contains(e.1) && e.0 == c.round - 1 {
                    let m = choose|m: int| 0 <= m < k + 1 && c.previous_certificate_ids@[m] == e.1;
                    if m == k {
                        assert(out@[out@.len() - 1] == e);
                    }
                }
            }
        }
        k = k + 1;
    }
    proof {
        assert forall|e: (u64, Field)| c.previous_certificate_ids@.contains(e.1) implies
            exists|m: int| 0 <= m < c.previous_certificate_ids@.len() && c.previous_certificate_ids@[m] == e.1 by {
        }
    }
}

/// Returns the leaf edges of the subdag: for each certificate, the (round, ID) of each previous
/// certificate that the subdag does not hold, the round being the certificate's round minus 1.
pub fn subdag_leaf_edges(subdag: &Subdag) -> (r: Vec<(u64, Field)>)
    requires
        rounds_positive(subdag.rounds()),
    ensures
        forall|e: (u64, Field)| #[trigger] r@.contains(e) <==> leaf_edge(subdag.rounds(), e),
{
    let ghost rounds = subdag.rounds();
    // Store the IDs of all certificates in this subdag.
    let ids = certificate_ids(subdag);
    let mut out: Vec<(u64, Field)> = Vec::new();
    let mut i: usize = 0;
    while i < subdag.rounds.len()
        invariant
            i <= rounds.len(),
            rounds == subdag.rounds@,
            rounds_positive(rounds),
            forall|id: Field| ids@.contains(id) <==> in_subdag(rounds, id),
            forall|e: (u64, Field)| #[trigger] out@.contains(e) <==> exists|a: int, b: int|
                0 <= a < i && 0 <= b < rounds[a].1@.len() && #[trigger] edge_of(rounds, rounds[a].1@[b], e),
        decreases rounds.len() - i,
    {
        let certificates = &subdag.rounds[i].1;
        let mut j: usize = 0;
        while j < certificates.len()
            invariant
                j <= certificates@.len(),
                i < rounds.len(),
                *certificates == rounds[i as int].1,
                rounds_positive(rounds),
                forall|id: Field| ids@.contains(id) <==> in_subdag(rounds, id),
                forall|e: (u64, Field)| #[trigger] out@.contains(e) <==> (exists|a: int, b: int|
                    0 <= a < i && 0 <= b < rounds[a].1@.len() && #[trigger] edge_of(rounds, rounds[a].1@[b], e))
                    || exists|b: int| 0 <= b < j && #[trigger] edge_of(rounds, certificates@[b], e),
            decreases certificates@.len() - j,
        {
            let ghost before = out@;
            assert(certificates@[j as int] == rounds[i as int].1@[j as int]);
            push_certificate_edges(&mut out, &certificates[j], &ids);
            proof {
                assert forall|e: (u64, Field)| #[trigger] out@.contains(e) <==> (exists|a: int, b: int|
                    0 <= a < i && 0 <= b < rounds[a].1@.len() && #[trigger] edge_of(rounds, rounds[a].1@[b], e))
                    || exists|b: int| 0 <= b < j + 1 && #[trigger] edge_of(rounds, certificates@[b], e) by {
                    assert(before.contains(e) <==> (exists|a: int, b: int|
                        0 <= a < i && 0 <= b < rounds[a].1@.len() && #[trigger] edge_of(rounds, rounds[a].1@[b], e))
                        || exists|b: int| 0 <= b < j && #[trigger] edge_of(rounds, certificates@[b], e));
                    if exists|b: int| 0 <= b < j + 1 && #[trigger] edge_of(rounds, certificates@[b], e) {
                        let b = choose|b: int| 0 <= b < j + 1 && #[trigger] edge_of(rounds, certificates@[b], e);
                        if b < j {
                            assert(before.contains(e));
                        }
                    }
                    if out@.contains(e) && !before.contains(e) {
                        assert(edge_of(rounds, certificates@[j as int], e));
                    }
                }
            }
            j = j + 1;
        }
        proof {
            assert forall|e: (u64, Field)| #[trigger] out@.contains(e) <==> exists|a: int, b: int|
                0 <= a < i + 1 && 0 <= b < rounds[a].1@.len() && #[trigger] edge_of(rounds, rounds[a].1@[b], e) by {
                if exists|b: int| 0 <= b < certificates@.len() && #[trigger] edge_of(rounds, certificates@[b], e) {
                    let b = choose|b: int| 0 <= b < certificates@.len() && #[trigger] edge_of(rounds, certificates@[b], e);
                    assert(edge_of(rounds, rounds[i as int].1@[b], e));
                }
                if exists|a: int, b: int| 0 <= a < i + 1 && 0 <= b < rounds[a].1@.len() && #[trigger] edge_of(rounds, rounds[a].1@[b], e) {
                    let (a, b) = choose|a: int, b: int| 0 <= a < i + 1 && 0 <= b < rounds[a].1@.len() && #[trigger] edge_of(rounds, rounds[a].1@[b], e);
                    if a == i {
                        assert(edge_of(rounds, certificates@[b], e));
                    }
                }
            }
        }
        i = i + 1;
    }
    out
}

/// A leaf edge to a certificate of round `round` needs no check: that round is so far behind
/// the block's round (by the garbage-collection depth) that no later batch may be part of the block.
pub open spec fn beyond_gc(round: u64, max_gc_rounds: u64, block_round: u64) -> bool {
    round + max_gc_rounds <= block_round + 1
}

/// What the leaf check gives: `Ok` when every leaf within garbage collection points to a
/// certificate of a previous block; otherwise a leaf within garbage collection whose
/// certificate the store does not know, or could not look up.
pub open spec fn leaves_outcome<C: Fn(&Field) -> Option<bool>>(
    subdag: Subdag,
    block_round: u64,
    max_gc_rounds: u64,
    contains_block_for_certificate: C,
    r: Result<(), SubdagError>,
) -> bool {
    match r {
        Ok(()) => forall|e: (u64, Field)|
            #[trigger] leaf_edge(subdag.rounds(), e) && !beyond_gc(e.0, max_gc_rounds, block_round) ==> call_ensures(
                contains_block_for_certificate,
                (&e.1,),
                Some(true),
            ),
        Err(SubdagError::UnknownLeafCertificate(round, id)) => leaf_edge(subdag.rounds(), (round, id))
            && !beyond_gc(round, max_gc_rounds, block_round) && call_ensures(
            contains_block_for_certificate,
            (&id,),
            Some(false),
        ),
        Err(SubdagError::StorageFailure(round, id)) => leaf_edge(subdag.rounds(), (round, id))
            && !beyond_gc(round, max_gc_rounds, block_round) && call_ensures(
            contains_block_for_certificate,
            (&id,),
            None,
        ),
        Err(_) => false,
    }
}

/// Checks that the leaves of the subdag point to certificates of previous blocks: every leaf
/// edge that is not beyond garbage collection must point to a certificate for which
/// `contains_block_for_certificate` answers `Some(true)`.
pub fn check_subdag_leaves<C: Fn(&Field) -> Option<bool>>(
    subdag: &Subdag,
    block_round: u64,
    max_gc_rounds: u64,
    contains_block_for_certificate: C,
) -> (r: Result<(), SubdagError>)
    requires
        rounds_positive(subdag.rounds()),
        forall|id: Field| call_requires(contains_block_for_certificate, (&id,)),
    ensures
        leaves_outcome(*subdag, block_round, max_gc_rounds, contains_block_for_certificate, r),
{
    let edges = subdag_leaf_edges(subdag);
    let mut k: usize = 0;
    while k < edges.len()
        invariant
            k <= edges@.len(),
            forall|e: (u64, Field)| #[trigger] edges@.contains(e) <==> leaf_edge(subdag.rounds(), e),
            forall|id: Field| call_requires(contains_block_for_certificate, (&id,)),
            forall|m: int|
                0 <= m < k && !beyond_gc(edges@[m].0, max_gc_rounds, block_round) ==> call_ensures(
                    contains_block_for_certificate,
                    (&edges@[m].1,),
                    Some(true),
                ),
        decreases edges@.len() - k,
    {
        let (prev_round, prev_id) = edges[k];
        assert(edges@.contains(edges@[k as int]));
        // A leaf at the end of garbage collection needs no (and allows no) check.
        if (prev_round as u128) + (max_gc_rounds as u128) > (block_round as u128) + 1 {
            // Ensure that the certificate is associated with a previous block.
            match contains_block_for_certificate(&prev_id) {
                Some(true) => {},
                Some(false) => return Err(SubdagError::UnknownLeafCertificate(prev_round, prev_id)),
                None => return Err(SubdagError::StorageFailure(prev_round, prev_id)),
            }
        }
        k = k + 1;
    }
    proof {
        assert forall|e: (u64, Field)|
            #[trigger] leaf_edge(subdag.rounds(), e) && !beyond_gc(e.0, max_gc_rounds, block_round) implies call_ensures(
                contains_block_for_certificate,
                (&e.1,),
                Some(true),
            ) by {
            assert(edges@.contains(e));
            let m = choose|m: int| 0 <= m < edges@.len() && edges@[m] == e;
        }
    }
    Ok(())
}

/// Every previous certificate that a certificate of the subdag points to, at any position of
/// its list, and that the subdag does not hold, is a leaf, of the round before the
/// certificate's; nothing else is. A leaf check that passes had the store confirm a previous
/// block for each such certificate that garbage collection has not passed (its round plus the
/// garbage-collection depth exceeds the block's round plus one); a failure names such a
/// certificate that the store did not confirm. When the store answers each ID one way and
/// confirms every one of them, the check passes.
pub proof fn law_leaf_check_covers_every_missing_previous<C: Fn(&Field) -> Option<bool>>(
    subdag: Subdag,
    block_round: u64,
    max_gc_rounds: u64,
    contains_block_for_certificate: C,
    r: Result<(), SubdagError>,
)
    requires
        rounds_positive(subdag.rounds()),
        leaves_outcome(subdag, block_round, max_gc_rounds, contains_block_for_certificate, r),
    ensures
        forall|i: int, j: int, k: int|
            0 <= i < subdag.rounds().len() && 0 <= j < subdag.rounds()[i].1@.len() && 0 <= k
                < subdag.rounds()[i].1@[j].previous_certificate_ids@.len() && !in_subdag(
                subdag.rounds(),
                #[trigger] subdag.rounds()[i].1@[j].previous_certificate_ids@[k],
            ) ==> leaf_edge(
                subdag.rounds(),
                ((subdag.rounds()[i].1@[j].round - 1) as u64, subdag.rounds()[i].1@[j].previous_certificate_ids@[k]),
            ),
        forall|e: (u64, Field)|
            #[trigger] leaf_edge(subdag.rounds(), e) ==> !in_subdag(subdag.rounds(), e.1) && exists|i: int, j: int|
                0 <= i < subdag.rounds().len() && 0 <= j < subdag.rounds()[i].1@.len()
                    && #[trigger] subdag.rounds()[i].1@[j].previous_certificate_ids@.contains(e.1) && e.0
                    == subdag.rounds()[i].1@[j].round - 1,
        r is Ok ==> forall|i: int, j: int, k: int|
            0 <= i < subdag.rounds().len() && 0 <= j < subdag.rounds()[i].1@.len() && 0 <= k
                < subdag.rounds()[i].1@[j].previous_certificate_ids@.len() && !in_subdag(
                subdag.rounds(),
                #[trigger] subdag.rounds()[i].1@[j].previous_certificate_ids@[k],
            ) && subdag.rounds()[i].1@[j].round - 1 + max_gc_rounds > block_round + 1 ==> call_ensures(
                contains_block_for_certificate,
                (&subdag.rounds()[i].1@[j].previous_certificate_ids@[k],),
                Some(true),
            ),
        match r {
            Err(SubdagError::UnknownLeafCertificate(round, id)) => leaf_edge(subdag.rounds(), (round, id)) && round
                + max_gc_rounds > block_round + 1 && call_ensures(contains_block_for_certificate, (&id,), Some(false)),
            Err(SubdagError::StorageFailure(round, id)) => leaf_edge(subdag.rounds(), (round, id)) && round
                + max_gc_rounds > block_round + 1 && call_ensures(contains_block_for_certificate, (&id,), None::<bool>),
            Ok(()) => true,
            Err(_) => false,
        },
        ({
            &&& forall|id: Field, a: Option<bool>, b: Option<bool>|
                #[trigger] call_ensures(contains_block_for_certificate, (&id,), a) && #[trigger] call_ensures(
                    contains_block_for_certificate,
                    (&id,),
                    b,
                ) ==> a == b
            &&& forall|i: int, j: int, k: int|
                0 <= i < subdag.rounds().len() && 0 <= j < subdag.rounds()[i].1@.len() && 0 <= k
                    < subdag.rounds()[i].1@[j].previous_certificate_ids@.len() && !in_subdag(
                    subdag.rounds(),
                    #[trigger] subdag.rounds()[i].1@[j].previous_certificate_ids@[k],
                ) && subdag.rounds()[i].1@[j].round - 1 + max_gc_rounds > block_round + 1 ==> call_ensures(
                    contains_block_for_certificate,
                    (&subdag.rounds()[i].1@[j].previous_certificate_ids@[k],),
                    Some(true),
                )
        }) ==> r is Ok,
{
    let rounds = subdag.rounds();
    assert forall|i: int, j: int, k: int|
        0 <= i < rounds.len() && 0 <= j < rounds[i].1@.len() && 0 <= k < rounds[i].1@[j].previous_certificate_ids@.len()
            && !in_subdag(rounds, #[trigger] rounds[i].1@[j].previous_certificate_ids@[k]) implies leaf_edge(
        rounds,
        ((rounds[i].1@[j].round - 1) as u64, rounds[i].1@[j].previous_certificate_ids@[k]),
    ) by {
        let c = rounds[i].1@[j];
        let e = ((c.round - 1) as u64, c.previous_certificate_ids@[k]);
        assert(rounds[i].1@[j].round > 0);
        assert(c.previous_certificate_ids@.contains(e.1));
        assert(edge_of(rounds, rounds[i].1@[j], e));
    }
    assert forall|e: (u64, Field)| #[trigger] leaf_edge(rounds, e) implies !in_subdag(rounds, e.1) && exists|i: int, j: int|
        0 <= i < rounds.len() && 0 <= j < rounds[i].1@.len() && #[trigger] rounds[i].1@[j].previous_certificate_ids@.contains(
            e.1,
        ) && e.0 == rounds[i].1@[j].round - 1 by {
        let (i, j) = choose|i: int, j: int|
            0 <= i < rounds.len() && 0 <= j < rounds[i].1@.len() && #[trigger] edge_of(rounds, rounds[i].1@[j], e);
        assert(rounds[i].1@[j].round > 0);
    }
    if r is Ok {
        assert forall|i: int, j: int, k: int|
            0 <= i < rounds.len() && 0 <= j < rounds[i].1@.len() && 0 <= k < rounds[i].1@[j].previous_certificate_ids@.len()
                && !in_subdag(rounds, #[trigger] rounds[i].1@[j].previous_certificate_ids@[k]) && rounds[i].1@[j].round
                - 1 + max_gc_rounds > block_round + 1 implies call_ensures(
            contains_block_for_certificate,
            (&rounds[i].1@[j].previous_certificate_ids@[k],),
            Some(true),
        ) by {
            let c = rounds[i].1@[j];
            let e = ((c.round - 1) as u64, c.previous_certificate_ids@[k]);
            assert(rounds[i].1@[j].round > 0);
            assert(c.previous_certificate_ids@.contains(e.1));
            assert(edge_of(rounds, rounds[i].1@[j], e));
            assert(leaf_edge(rounds, e));
        }
    }
    let deterministic = forall|id: Field, a: Option<bool>, b: Option<bool>|
        #[trigger] call_ensures(contains_block_for_certificate, (&id,), a) && #[trigger] call_ensures(
            contains_block_for_certificate,
            (&id,),
            b,
        ) ==> a == b;
    let all_confirmed = forall|i: int, j: int, k: int|
        0 <= i < rounds.len() && 0 <= j < rounds[i].1@.len() && 0 <= k < rounds[i].1@[j].previous_certificate_ids@.len()
            && !in_subdag(rounds, #[trigger] rounds[i].1@[j].previous_certificate_ids@[k]) && rounds[i].1@[j].round - 1
            + max_gc_rounds > block_round + 1 ==> call_ensures(
            contains_block_for_certificate,
            (&rounds[i].1@[j].previous_certificate_ids@[k],),
            Some(true),
        );
    if let Err(err) = r {
        if deterministic && all_confirmed {
            let (round, id) = match err {
                SubdagError::UnknownLeafCertificate(round, id) => (round, id),
                SubdagError::StorageFailure(round, id) => (round, id),
                _ => (0u64, Field(0, 0, 0, 0)),
            };
            let e = (round, id);
            let (i, j) = choose|i: int, j: int|
                0 <= i < rounds.len() && 0 <= j < rounds[i].1@.len() && #[trigger] edge_of(rounds, rounds[i].1@[j], e);
            let c = rounds[i].1@[j];
            let k = choose|k: int| 0 <= k < c.previous_certificate_ids@.len() && c.previous_certificate_ids@[k] == id;
            assert(rounds[i].1@[j].previous_certificate_ids@[k] == id);
        }
    }
}

/// `signers` lists, once each, the signers of the certificate and its author.
pub open spec fn signer_set(c: BatchCertificate, signers: Seq<Address>) -> bool {
    &&& signers.no_duplicates()
    &&& forall|a: Address| #[trigger] signers.contains(a) <==> (c.signers@.contains(a) || a == c.author)
}

/// Returns `true` if `a` is among `v`.
fn contains_address(v: &Vec<Address>, a: &Address) -> (r: bool)
    ensures
        r == v@.contains(*a),
{
    let mut i: usize = 0;
    while i < v.len()
        invariant
            i <= v@.len(),
            forall|j: int| 0 <= j < i ==> v@[j] != *a,
        decreases v@.len() - i,
    {
        if v[i] == *a {
            return true;
        }
        i = i + 1;
    }
    false
}

/// Returns the signers of the certificate together with its author, each once.
pub fn certificate_signers(c: &BatchCertificate) -> (r: Vec<Address>)
    ensures
        signer_set(*c, r@),
{
    let mut signers: Vec<Address> = Vec::new();
    let mut i: usize = 0;
    while i < c.signers.len()
        invariant
            i <= c.signers@.len(),
            signers@.no_duplicates(),
            forall|a: Address| #[trigger] signers@.contains(a) <==> exists|j: int| 0 <= j < i && c.signers@[j] == a,
        decreases c.signers@.len() - i,
    {
        let a = c.signers[i];
        let ghost before = signers@;
        if !contains_address(&signers, &a) {
            signers.push(a);
        }
        proof {
            assert forall|x: Address| #[trigger] signers@.contains(x) <==> exists|j: int| 0 <= j < i + 1 && c.signers@[j] == x by {
                if signers@.contains(x) && !before.contains(x) {
                    assert(c.signers@[i as int] == x);
                }
                if before.contains(x) {
                    let t = choose|t: int| 0 <= t < before.len() && before[t] == x;
                    assert(signers@[t] == x);
                }
                if exists|j: int| 0 <= j < i + 1 && c.signers@[j] == x {
                    let j = choose|j: int| 0 <= j < i + 1 && c.signers@[j] == x;
                    if j == i && !before.contains(x) {
                        assert(signers@[signers@.len() - 1] == x);
                    }
                }
            }
        }
        i = i + 1;
    }
    let ghost before = signers@;
    // Append the certificate author.
    if !contains_address(&signers, &c.author) {
        signers.push(c.author);
    }
    proof {
        assert forall|x: Address| #[trigger] signers@.contains(x) <==> (c.signers@.contains(x) || x == c.author) by {
            if c.signers@.contains(x) {
                let j = choose|j: int| 0 <= j < c.signers@.len() && c.signers@[j] == x;
                assert(before.contains(x));
            }
            if before.contains(x) {
                let t = choose|t: int| 0 <= t < before.len() && before[t] == x;
                assert(signers@[t] == x);
            }
            if x == c.author && !before.contains(x) {
                assert(signers@[signers@.len() - 1] == x);
            }
        }
    }
    signers
}

/// Certificate `j` of round entry `i` meets the quorum of `committee`, as `quorum_reached`
/// judges its signers.
pub open spec fn certificate_meets_quorum<K, Q: Fn(&K, &Vec<Address>) -> bool>(
    c: BatchCertificate,
    committee: K,
    quorum_reached: Q,
) -> bool {
    exists|signers: Vec<Address>|
        signer_set(c, signers@) && #[trigger] call_ensures(quorum_reached, (&committee, &signers), true)
}

/// Round entry `i` of the subdag meets the quorum requirement: a committee is known for its
/// round and each of its certificates meets that committee's quorum.
pub open spec fn round_meets_quorum<K, C: Fn(u64) -> Option<K>, Q: Fn(&K, &Vec<Address>) -> bool>(
    rounds: Seq<(u64, Vec<BatchCertificate>)>,
    i: int,
    committee_at: C,
    quorum_reached: Q,
) -> bool {
    exists|k: K|
        #[trigger] call_ensures(committee_at, (rounds[i].0,), Some(k)) && forall|j: int|
            0 <= j < rounds[i].1@.len() ==> certificate_meets_quorum(#[trigger] rounds[i].1@[j], k, quorum_reached)
}

/// A certificate with ID `id` in round `round` of the subdag fails the quorum of the committee
/// that `committee_at` gave for the round.
pub open spec fn quorum_failure<K, C: Fn(u64) -> Option<K>, Q: Fn(&K, &Vec<Address>) -> bool>(
    rounds: Seq<(u64, Vec<BatchCertificate>)>,
    committee_at: C,
    quorum_reached: Q,
    round: u64,
    id: Field,
) -> bool {
    exists|i: int, j: int, k: K, signers: Vec<Address>|
        #![trigger rounds[i].1@[j], call_ensures(quorum_reached, (&k, &signers), false)]
        0 <= i < rounds.len() && 0 <= j < rounds[i].1@.len() && rounds[i].0 == round && rounds[i].1@[j].id == id
            && call_ensures(committee_at, (round,), Some(k)) && signer_set(rounds[i].1@[j], signers@)
            && call_ensures(quorum_reached, (&k, &signers), false)
}

/// What the quorum check gives: `Ok` when every round meets its quorum; otherwise a round of
/// the subdag without a committee, or a certificate that misses its round's quorum.
pub open spec fn quorum_outcome<K, C: Fn(u64) -> Option<K>, Q: Fn(&K, &Vec<Address>) -> bool>(
    subdag: Subdag,
    committee_at: C,
    quorum_reached: Q,
    r: Result<(), SubdagError>,
) -> bool {
    match r {
        Ok(()) => forall|i: int|
            0 <= i < subdag.rounds().len() ==> #[trigger] round_meets_quorum(
                subdag.rounds(),
                i,
                committee_at,
                quorum_reached,
            ),
        Err(SubdagError::MissingCommittee(round)) => subdag.rounds().map_values(
            |e: (u64, Vec<BatchCertificate>)| e.0,
        ).contains(round) && call_ensures(committee_at, (round,), None),
        Err(SubdagError::QuorumNotReached(round, id)) => quorum_failure(
            subdag.rounds(),
            committee_at,
            quorum_reached,
            round,
            id,
        ),
        Err(_) => false,
    }
}

/// Checks that the certificates of each round of the subdag have met the quorum requirement of
/// that round's committee (as `committee_at` gives it), judged by `quorum_reached` over the
/// signers of each certificate and its author.
pub fn check_subdag_quorum<K, C: Fn(u64) -> Option<K>, Q: Fn(&K, &Vec<Address>) -> bool>(
    subdag: &Subdag,
    committee_at: C,
    quorum_reached: Q,
) -> (r: Result<(), SubdagError>)
    requires
        forall|round: u64| call_requires(committee_at, (round,)),
        forall|k: K, signers: Vec<Address>| call_requires(quorum_reached, (&k, &signers)),
    ensures
        quorum_outcome(*subdag, committee_at, quorum_reached, r),
{
    let ghost rounds = subdag.rounds();
    let mut i: usize = 0;
    while i < subdag.rounds.len()
        invariant
            i <= rounds.len(),
            rounds == subdag.rounds@,
            forall|round: u64| call_requires(committee_at, (round,)),
            forall|k: K, signers: Vec<Address>| call_requires(quorum_reached, (&k, &signers)),
            forall|a: int| 0 <= a < i ==> #[trigger] round_meets_quorum(rounds, a, committee_at, quorum_reached),
        decreases rounds.len() - i,
    {
        let round = subdag.rounds[i].0;
        let certificates = &subdag.rounds[i].1;
        // Retrieve the committee lookback for the round.
        let committee = match committee_at(round) {
            Some(committee) => committee,
            None => {
                assert(rounds.map_values(|e: (u64, Vec<BatchCertificate>)| e.0)[i as int] == round);
                return Err(SubdagError::MissingCommittee(round));
            },
        };
        let mut j: usize = 0;
        while j < certificates.len()
            invariant
                j <= certificates@.len(),
                i < rounds.len(),
                *certificates == rounds[i as int].1,
                round == rounds[i as int].0,
                rounds == subdag.rounds@,
                call_ensures(committee_at, (round,), Some(committee)),
                forall|k: K, signers: Vec<Address>| call_requires(quorum_reached, (&k, &signers)),
                forall|b: int| 0 <= b < j ==> certificate_meets_quorum(#[trigger] certificates@[b], committee, quorum_reached),
            decreases certificates@.len() - j,
        {
            // Collect the certificate signers, with the certificate author.
            let signers = certificate_signers(&certificates[j]);
            // Ensure that the signers of the certificate reach the quorum threshold.
            if !quorum_reached(&committee, &signers) {
                assert(rounds[i as int].1@[j as int] == certificates@[j as int]);
                let id = certificates[j].id;
                assert(quorum_failure(rounds, committee_at, quorum_reached, round, id));
                return Err(SubdagError::QuorumNotReached(round, id));
            }
            assert(certificate_meets_quorum(certificates@[j as int], committee, quorum_reached));
            j = j + 1;
        }
        assert(round_meets_quorum(rounds, i as int, committee_at, quorum_reached));
        i = i + 1;
    }
    Ok(())
}

} // verus!
