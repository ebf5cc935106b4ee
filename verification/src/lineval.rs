use vstd::prelude::*;

use itertools::Itertools;

use crate::parallel::ExecutionPool;

verus! {

/// The three R1CS matrices.
#[derive(Debug, Clone, Copy, PartialEq, Eq, Structural)]
pub enum MatrixLabel {
    A,
    B,
    C,
}

/// The position of a matrix among `A, B, C`.
pub open spec fn label_index(label: MatrixLabel) -> int {
    match label {
        MatrixLabel::A => 0,
        MatrixLabel::B => 1,
        MatrixLabel::C => 2,
    }
}

/// The counts as natural numbers.
pub open spec fn as_nats(counts: Seq<usize>) -> Seq<nat> {
    counts.map_values(|n: usize| n as nat)
}

/// The number of instances of the circuits before circuit `c`.
pub open spec fn prefix(num_instances: Seq<nat>, c: int) -> nat
    decreases c,
{
    if c <= 0 {
        0
    } else {
        prefix(num_instances, c - 1) + num_instances[c - 1]
    }
}

/// The position of the job for matrix `label` of instance `i` of circuit `c`: jobs go circuit
/// by circuit, instance by instance, and `A, B, C` for each instance.
pub open spec fn job_index(num_instances: Seq<nat>, c: int, i: int, label: MatrixLabel) -> int {
    3 * (prefix(num_instances, c) + i) + label_index(label)
}

/// Instance `i` of circuit `c` exists.
pub open spec fn valid_instance(num_instances: Seq<nat>, c: int, i: int) -> bool {
    0 <= c < num_instances.len() && 0 <= i < num_instances[c]
}

/// Prefix sums grow with the circuit index.
pub proof fn lemma_prefix_monotone(num_instances: Seq<nat>, c1: int, c2: int)
    requires
        0 <= c1 <= c2 <= num_instances.len(),
    ensures
        prefix(num_instances, c1) <= prefix(num_instances, c2),
    decreases c2 - c1,
{
    if c1 < c2 {
        lemma_prefix_monotone(num_instances, c1, c2 - 1);
    }
}

/// The jobs of a valid instance come before the last job.
pub proof fn lemma_job_index_bounds(num_instances: Seq<nat>, c: int, i: int, label: MatrixLabel)
    requires
        valid_instance(num_instances, c, i),
    ensures
        0 <= job_index(num_instances, c, i, label) < 3 * prefix(num_instances, num_instances.len() as int),
{
    lemma_prefix_monotone(num_instances, c + 1, num_instances.len() as int);
}

/// Returns the values if every result is `Ok`, otherwise the first error.
fn collect_results<T, E>(results: Vec<Result<T, E>>) -> (r: Result<Vec<T>, E>)
    ensures
        match r {
            Ok(values) => values@.len() == results@.len() && forall|k: int|
                0 <= k < results@.len() ==> results@[k] == Ok::<T, E>(#[trigger] values@[k]),
            Err(e) => exists|k: int|
                0 <= k < results@.len() && results@[k] == Err::<T, E>(e) && forall|j: int|
                    0 <= j < k ==> #[trigger] results@[j] is Ok,
        },
{
    let ghost all = results@;
    let mut values: Vec<T> = Vec::new();
    for result in it: results
        invariant
            it.seq() == all,
            values@.len() == it.index(),
            forall|k: int| 0 <= k < it.index() ==> all[k] == Ok::<T, E>(#[trigger] values@[k]),
    {
        match result {
            Ok(value) => values.push(value),
            Err(e) => {
                assert forall|j: int| 0 <= j < it.index() implies #[trigger] all[j] is Ok by {
                    assert(all[j] == Ok::<T, E>(values@[j]));
                }
                return Err(e);
            },
        }
    }
    Ok(values)
}

/// Calls `itertools::Itertools::tuples` on the items and collects the triples. Trusted: triple
/// `k` is made of items `3k`, `3k + 1` and `3k + 2`, and the last one or two items, if any, are
/// dropped.
#[verifier::external_body]
fn group_in_triples<T>(items: Vec<T>) -> (r: Vec<(T, T, T)>)
    ensures
        r@.len() == items@.len() / 3,
        forall|k: int|
            0 <= k < r@.len() ==> #[trigger] r@[k] == (items@[3 * k], items@[3 * k + 1], items@[3 * k + 2]),
{
    items.into_iter().tuples().collect()
}

/// Two valid instances at the same position are the same instance.
pub proof fn lemma_instance_position_unique(num_instances: Seq<nat>, c1: int, i1: int, c2: int, i2: int)
    requires
        valid_instance(num_instances, c1, i1),
        valid_instance(num_instances, c2, i2),
        prefix(num_instances, c1) + i1 == prefix(num_instances, c2) + i2,
    ensures
        c1 == c2 && i1 == i2,
{
    if c1 < c2 {
        lemma_prefix_monotone(num_instances, c1 + 1, c2);
    } else if c2 < c1 {
        lemma_prefix_monotone(num_instances, c2 + 1, c1);
    }
}

/// Two jobs of valid instances at the same position are the same job.
pub proof fn lemma_job_index_unique(
    num_instances: Seq<nat>,
    c1: int,
    i1: int,
    l1: MatrixLabel,
    c2: int,
    i2: int,
    l2: MatrixLabel,
)
    requires
        valid_instance(num_instances, c1, i1),
        valid_instance(num_instances, c2, i2),
        job_index(num_instances, c1, i1, l1) == job_index(num_instances, c2, i2, l2),
    ensures
        c1 == c2 && i1 == i2 && l1 == l2,
{
    lemma_instance_position_unique(num_instances, c1, i1, c2, i2);
}

/// The coefficients with which the verifier combines the circuits and their instances.
pub struct BatchCombiners<F> {
    /// The combiner of the circuit.
    pub circuit_combiner: F,
    /// The combiners of the instances of the circuit, one per instance.
    pub instance_combiners: Vec<F>,
}

/// The verifier's first message: the batch combiners of each circuit.
pub struct FirstMessage<F> {
    pub first_round_batch_combiners: Vec<BatchCombiners<F>>,
}

/// The verifier's second message.
pub struct SecondMessage<F> {
    /// The evaluation point.
    pub alpha: F,
    /// A combiner that this protocol version does not use.
    pub eta_b: Option<F>,
    /// A combiner that this protocol version does not use.
    pub eta_c: Option<F>,
}

/// The sums of the linear-evaluation witnesses of the three matrices for one instance.
pub struct MatrixSums<F> {
    pub sum_a: F,
    pub sum_b: F,
    pub sum_c: F,
}

/// The prover's third message: the matrix sums of each instance of each circuit.
pub struct ThirdMessage<F> {
    pub sums: Vec<Vec<MatrixSums<F>>>,
}

/// The prover state of one circuit that this round updates: the `z_m` polynomials evaluated at
/// `alpha` for `A, B, C`, instance after instance, kept for the next round.
pub struct CircuitState<P> {
    pub z_m_at_alpha_polys: Option<Vec<(P, P, P)>>,
}

/// The prover state: the state of each circuit of the batch.
pub struct ProverState<P> {
    pub circuit_specific_states: Vec<CircuitState<P>>,
}

/// The errors of the third round.
#[derive(Debug)]
pub enum ThirdRoundError<E> {
    /// The second message holds `eta_b` or `eta_c`, which this protocol version does not expect.
    UnexpectedEta,
    /// Computing a linear-evaluation witness failed.
    Witness(E),
}

/// The number of instances of each circuit.
pub open spec fn instance_counts<F>(combiners: Seq<BatchCombiners<F>>) -> Seq<nat> {
    combiners.map_values(|b: BatchCombiners<F>| b.instance_combiners@.len())
}

/// The polynomials that a circuit state held before the round.
pub open spec fn held_polys<P>(state: CircuitState<P>) -> Seq<(P, P, P)> {
    match state.z_m_at_alpha_polys {
        Some(v) => v@,
        None => Seq::empty(),
    }
}

/// The jobs so far: job `k` computes the witness of `args[k]`, whose position is `k`.
pub open spec fn jobs_well_placed<F, P, E, W: Fn(usize, usize, MatrixLabel, &F) -> Result<(P, F), E>, J: FnOnce() -> Result<(P, F), E>>(
    num_instances: Seq<nat>,
    jobs: Seq<J>,
    args: Seq<(int, int, MatrixLabel)>,
    lineval: W,
    alpha: F,
) -> bool {
    &&& jobs.len() == args.len()
    &&& forall|k: int|
        0 <= k < args.len() ==> valid_instance(num_instances, #[trigger] args[k].0, args[k].1) && job_index(
            num_instances,
            args[k].0,
            args[k].1,
            args[k].2,
        ) == k
    &&& forall|k: int| 0 <= k < jobs.len() ==> call_requires(#[trigger] jobs[k], ())
    &&& forall|k: int, r: Result<(P, F), E>|
        0 <= k < jobs.len() && #[trigger] call_ensures(jobs[k], (), r) ==> call_ensures(
            lineval,
            (args[k].0 as usize, args[k].1 as usize, args[k].2, &alpha),
            r,
        )
}

/// Creates the jobs of all instances of all circuits.
fn create_jobs<F, P, E, W: Fn(usize, usize, MatrixLabel, &F) -> Result<(P, F), E>>(
    num_instances: &Vec<usize>,
    total_instances: usize,
    alpha: &F,
    lineval: &W,
) -> (r: (Vec<Result<(P, F), E>>, Ghost<Seq<(int, int, MatrixLabel)>>))
    requires
        forall|c: usize, i: usize, l: MatrixLabel, a: &F| call_requires(*lineval, (c, i, l, a)),
        total_instances == prefix(as_nats(num_instances@), num_instances@.len() as int),
        3 * total_instances <= usize::MAX,
    ensures
        ({
            let (results, args) = r;
            let ni = as_nats(num_instances@);
            &&& results@.len() == args@.len() == 3 * total_instances
            &&& forall|k: int|
                0 <= k < args@.len() ==> valid_instance(ni, #[trigger] args@[k].0, args@[k].1) && job_index(
                    ni,
                    args@[k].0,
                    args@[k].1,
                    args@[k].2,
                ) == k
            &&& forall|k: int|
                0 <= k < args@.len() ==> call_ensures(
                    *lineval,
                    (args@[k].0 as usize, args@[k].1 as usize, args@[k].2, alpha),
                    #[trigger] results@[k],
                )
        }),
{
    let ghost ni = as_nats(num_instances@);
    let mut job_pool = ExecutionPool::with_capacity(total_instances * 3);
    let ghost mut args: Seq<(int, int, MatrixLabel)> = Seq::empty();
    let mut c: usize = 0;
    // Iterate for each circuit in the batch.
    while c < num_instances.len()
        invariant
            c <= num_instances@.len(),
            ni == as_nats(num_instances@),
            forall|c: usize, i: usize, l: MatrixLabel, a: &F| call_requires(*lineval, (c, i, l, a)),
            args.len() == 3 * prefix(ni, c as int),
            jobs_well_placed(ni, job_pool@, args, *lineval, *alpha),
        decreases num_instances@.len() - c,
    {
        let n = num_instances[c];
        let mut i: usize = 0;
        // Iterate for each instance in the batch.
        while i < n
            invariant
                c < num_instances@.len(),
                n == ni[c as int],
                i <= n,
                ni == as_nats(num_instances@),
                forall|c: usize, i: usize, l: MatrixLabel, a: &F| call_requires(*lineval, (c, i, l, a)),
                args.len() == 3 * (prefix(ni, c as int) + i),
                jobs_well_placed(ni, job_pool@, args, *lineval, *alpha),
            decreases n - i,
        {
            let mut l: usize = 0;
            // Iterate for each R1CS matrix corresponding to the circuit and instance.
            while l < 3
                invariant
                    c < num_instances@.len(),
                    n == ni[c as int],
                    i < n,
                    l <= 3,
                    ni == as_nats(num_instances@),
                    forall|c: usize, i: usize, l: MatrixLabel, a: &F| call_requires(*lineval, (c, i, l, a)),
                    args.len() == 3 * (prefix(ni, c as int) + i) + l,
                    jobs_well_placed(ni, job_pool@, args, *lineval, *alpha),
                decreases 3 - l,
            {
                let label = if l == 0 {
                    MatrixLabel::A
                } else if l == 1 {
                    MatrixLabel::B
                } else {
                    MatrixLabel::C
                };
                let job = move || -> (r: Result<(P, F), E>)
                    requires
                        call_requires(*lineval, (c, i, label, alpha)),
                    ensures
                        call_ensures(*lineval, (c, i, label, alpha), r),
                    { lineval(c, i, label, alpha) };
                let ghost old_jobs = job_pool@;
                job_pool.add_job(job);
                proof {
                    args = args.push((c as int, i as int, label));
                    assert(job_pool@ == old_jobs.push(job));
                    vstd::seq::axiom_seq_push_index_same(old_jobs, job, old_jobs.len() as int);
                    vstd::seq::axiom_seq_push_len(old_jobs, job);
                    assert(old_jobs.push(job)[old_jobs.len() as int] == job);
                    assert forall|k: int, r: Result<(P, F), E>|
                        0 <= k < job_pool@.len() && #[trigger] call_ensures(job_pool@[k], (), r) implies call_ensures(
                            *lineval,
                            (args[k].0 as usize, args[k].1 as usize, args[k].2, alpha),
                            r,
                        ) by {
                        if k < old_jobs.len() {
                            vstd::seq::axiom_seq_push_index_different(old_jobs, job, k);
                        } else {
                            assert(job_pool@[k] == job);
                        }
                    }
                    assert forall|k: int| 0 <= k < job_pool@.len() implies call_requires(#[trigger] job_pool@[k], ()) by {
                        if k < old_jobs.len() {
                            vstd::seq::axiom_seq_push_index_different(old_jobs, job, k);
                        } else {
                            assert(job_pool@[k] == job);
                        }
                    }
                }
                l = l + 1;
            }
            i = i + 1;
        }
        c = c + 1;
    }
    let ghost jobs = job_pool@;
    let results = job_pool.execute_all();
    proof {
        assert forall|k: int| 0 <= k < args.len() implies call_ensures(
            *lineval,
            (args[k].0 as usize, args[k].1 as usize, args[k].2, alpha),
            #[trigger] results@[k],
        ) by {
            assert(call_ensures(jobs[k], (), results@[k]));
        }
    }
    (results, Ghost(args))
}

/// Computing the witness of matrix `label` of instance `i` of circuit `c` at `alpha` may give
/// the polynomial `z` with the sum `sum` of its evaluations.
pub open spec fn witness_is<F, P, E, W: Fn(usize, usize, MatrixLabel, &F) -> Result<(P, F), E>>(
    lineval: W,
    alpha: F,
    c: int,
    i: int,
    label: MatrixLabel,
    z: P,
    sum: F,
) -> bool {
    call_ensures(lineval, (c as usize, i as usize, label, &alpha), Ok::<(P, F), E>((z, sum)))
}

/// The polynomials and sums of instance `i` of circuit `c` are the witnesses of its three matrices.
pub open spec fn instance_is<F, P, E, W: Fn(usize, usize, MatrixLabel, &F) -> Result<(P, F), E>>(
    lineval: W,
    alpha: F,
    c: int,
    i: int,
    polys: (P, P, P),
    sums: MatrixSums<F>,
) -> bool {
    &&& witness_is(lineval, alpha, c, i, MatrixLabel::A, polys.0, sums.sum_a)
    &&& witness_is(lineval, alpha, c, i, MatrixLabel::B, polys.1, sums.sum_b)
    &&& witness_is(lineval, alpha, c, i, MatrixLabel::C, polys.2, sums.sum_c)
}

/// The outcome of a successful round: one row of sums per circuit and one entry per instance,
/// and each circuit's polynomials extended, instance after instance, with the witnesses whose
/// sums the message holds.
pub open spec fn round_outcome<F, P, E, W: Fn(usize, usize, MatrixLabel, &F) -> Result<(P, F), E>>(
    num_instances: Seq<nat>,
    before: Seq<CircuitState<P>>,
    after: Seq<CircuitState<P>>,
    msg: ThirdMessage<F>,
    lineval: W,
    alpha: F,
) -> bool {
    &&& msg.sums@.len() == num_instances.len()
    &&& after.len() == num_instances.len()
    &&& forall|c: int|
        0 <= c < num_instances.len() ==> {
            &&& (#[trigger] msg.sums@[c])@.len() == num_instances[c]
            &&& after[c].z_m_at_alpha_polys is Some
            &&& after[c].z_m_at_alpha_polys.unwrap()@.len() == held_polys(before[c]).len() + num_instances[c]
            &&& after[c].z_m_at_alpha_polys.unwrap()@.take(held_polys(before[c]).len() as int) == held_polys(before[c])
        }
    &&& forall|c: int, i: int|
        #![trigger msg.sums@[c]@[i]]
        valid_instance(num_instances, c, i) ==> instance_is(
            lineval,
            alpha,
            c,
            i,
            after[c].z_m_at_alpha_polys.unwrap()@[held_polys(before[c]).len() + i],
            msg.sums@[c]@[i],
        )
}

/// Computing some witness failed with `e`, and every witness before it (in the order of the
/// jobs) was computed.
pub open spec fn first_witness_failure<F, P, E, W: Fn(usize, usize, MatrixLabel, &F) -> Result<(P, F), E>>(
    num_instances: Seq<nat>,
    lineval: W,
    alpha: F,
    e: E,
) -> bool {
    exists|c: int, i: int, l: MatrixLabel|
        #![trigger job_index(num_instances, c, i, l)]
        {
            &&& valid_instance(num_instances, c, i)
            &&& call_ensures(lineval, (c as usize, i as usize, l, &alpha), Err::<(P, F), E>(e))
            &&& forall|c2: int, i2: int, l2: MatrixLabel|
                #![trigger job_index(num_instances, c2, i2, l2)]
                valid_instance(num_instances, c2, i2) && job_index(num_instances, c2, i2, l2) < job_index(
                    num_instances,
                    c,
                    i,
                    l,
                ) ==> exists|v: (P, F)| call_ensures(lineval, (c2 as usize, i2 as usize, l2, &alpha), Ok::<(P, F), E>(v))
        }
}

/// Returns the number of instances of each circuit and their total.
fn count_instances<F>(combiners: &Vec<BatchCombiners<F>>) -> (r: (Vec<usize>, usize))
    requires
        3 * prefix(instance_counts(combiners@), combiners@.len() as int) <= usize::MAX,
    ensures
        as_nats(r.0@) == instance_counts(combiners@),
        r.1 == prefix(instance_counts(combiners@), combiners@.len() as int),
{
    let ghost ni = instance_counts(combiners@);
    let mut counts: Vec<usize> = Vec::new();
    let mut total: usize = 0;
    let mut c: usize = 0;
    while c < combiners.len()
        invariant
            c <= combiners@.len(),
            ni == instance_counts(combiners@),
            3 * prefix(ni, combiners@.len() as int) <= usize::MAX,
            as_nats(counts@) == ni.take(c as int),
            total == prefix(ni, c as int),
        decreases combiners@.len() - c,
    {
        let n = combiners[c].instance_combiners.len();
        proof {
            lemma_prefix_monotone(ni, c + 1, combiners@.len() as int);
        }
        let ghost before = counts@;
        counts.push(n);
        total = total + n;
        assert(ni[c as int] == n as nat);
        assert(as_nats(before) =~= ni.take(c as int));
        assert(as_nats(before).len() == before.len());
        assert(before.len() == c);
        assert(counts@ == before.push(n));
        assert forall|k: int| 0 <= k < c + 1 implies #[trigger] as_nats(counts@)[k] == ni.take(c + 1)[k] by {
            if k < c {
                assert(counts@[k] == before[k]);
                assert(as_nats(before)[k] == ni.take(c as int)[k]);
            }
        }
        assert(as_nats(counts@) =~= ni.take(c + 1));
        c = c + 1;
    }
    assert(ni.take(c as int) =~= ni);
    (counts, total)
}

/// The triple of instance `i` of circuit `c` holds the witnesses of its three matrices.
pub open spec fn triple_is<F, P, E, W: Fn(usize, usize, MatrixLabel, &F) -> Result<(P, F), E>>(
    lineval: W,
    alpha: F,
    c: int,
    i: int,
    triple: ((P, F), (P, F), (P, F)),
) -> bool {
    instance_is(
        lineval,
        alpha,
        c,
        i,
        (triple.0.0, triple.1.0, triple.2.0),
        MatrixSums { sum_a: triple.0.1, sum_b: triple.1.1, sum_c: triple.2.1 },
    )
}

/// Splits the triples, one per instance in job order, into the sums and polynomials of each circuit.
fn group_by_circuit<F, P, E, W: Fn(usize, usize, MatrixLabel, &F) -> Result<(P, F), E>>(
    num_instances: &Vec<usize>,
    triples: Vec<((P, F), (P, F), (P, F))>,
    lineval: &W,
    alpha: &F,
) -> (r: (Vec<Vec<MatrixSums<F>>>, Vec<Vec<(P, P, P)>>))
    requires
        forall|c: int| 0 <= c < num_instances@.len() ==> #[trigger] num_instances@[c] > 0,
        triples@.len() == prefix(as_nats(num_instances@), num_instances@.len() as int),
        forall|c: int, i: int|
            valid_instance(as_nats(num_instances@), c, i) ==> #[trigger] triple_is(
                *lineval,
                *alpha,
                c,
                i,
                triples@[prefix(as_nats(num_instances@), c) + i],
            ),
    ensures
        r.0@.len() == num_instances@.len(),
        r.1@.len() == num_instances@.len(),
        forall|c: int|
            0 <= c < num_instances@.len() ==> (#[trigger] r.0@[c])@.len() == num_instances@[c] && r.1@[c]@.len()
                == num_instances@[c],
        forall|c: int, i: int|
            #![trigger r.0@[c]@[i]]
            valid_instance(as_nats(num_instances@), c, i) ==> instance_is(*lineval, *alpha, c, i, r.1@[c]@[i], r.0@[c]@[i]),
{
    let ghost ni = as_nats(num_instances@);
    let ghost all = triples@;
    let nc = num_instances.len();
    let mut sums: Vec<Vec<MatrixSums<F>>> = Vec::new();
    let mut polys: Vec<Vec<(P, P, P)>> = Vec::new();
    let mut cur_sums: Vec<MatrixSums<F>> = Vec::new();
    let mut cur_polys: Vec<(P, P, P)> = Vec::new();
    let mut circuit_index: usize = 0;
    let mut instances_seen: usize = 0;
    let mut t: usize = 0;
    let n_triples = triples.len();
    for triple in it: triples
        invariant
            it.seq() == all,
            n_triples == all.len(),
            t == it.index(),
            nc == num_instances@.len() == ni.len(),
            ni == as_nats(num_instances@),
            forall|c: int| 0 <= c < nc ==> #[trigger] num_instances@[c] > 0,
            all.len() == prefix(ni, nc as int),
            forall|c: int, i: int|
                valid_instance(ni, c, i) ==> #[trigger] triple_is(*lineval, *alpha, c, i, all[prefix(ni, c) + i]),
            circuit_index <= nc,
            instances_seen == prefix(ni, circuit_index as int),
            t == instances_seen + cur_sums@.len(),
            cur_polys@.len() == cur_sums@.len(),
            circuit_index < nc ==> cur_sums@.len() < num_instances@[circuit_index as int],
            circuit_index == nc ==> cur_sums@.len() == 0,
            sums@.len() == circuit_index,
            polys@.len() == circuit_index,
            forall|c: int|
                0 <= c < circuit_index ==> (#[trigger] sums@[c])@.len() == num_instances@[c] && polys@[c]@.len()
                    == num_instances@[c],
            forall|c: int, i: int|
                #![trigger sums@[c]@[i]]
                0 <= c < circuit_index && 0 <= i < num_instances@[c] ==> instance_is(
                    *lineval,
                    *alpha,
                    c,
                    i,
                    polys@[c]@[i],
                    sums@[c]@[i],
                ),
            forall|i: int|
                0 <= i < cur_sums@.len() ==> instance_is(
                    *lineval,
                    *alpha,
                    circuit_index as int,
                    i,
                    cur_polys@[i],
                    #[trigger] cur_sums@[i],
                ),
    {
        proof {
            assert(t < all.len());
            if circuit_index == nc {
                assert(false);
            }
            assert(triple_is(*lineval, *alpha, circuit_index as int, cur_sums@.len() as int, all[t as int]));
            lemma_prefix_monotone(ni, circuit_index + 1, nc as int);
        }
        let ((z_a, sum_a), (z_b, sum_b), (z_c, sum_c)) = triple;
        cur_sums.push(MatrixSums { sum_a, sum_b, sum_c });
        cur_polys.push((z_a, z_b, z_c));
        if 1 + t - instances_seen == num_instances[circuit_index] {
            let done_sums = cur_sums;
            let done_polys = cur_polys;
            cur_sums = Vec::new();
            cur_polys = Vec::new();
            sums.push(done_sums);
            polys.push(done_polys);
            instances_seen = instances_seen + num_instances[circuit_index];
            circuit_index = circuit_index + 1;
        }
        t = t + 1;
    }
    proof {
        if circuit_index < nc {
            lemma_prefix_monotone(ni, circuit_index + 1, nc as int);
        }
    }
    (sums, polys)
}

/// The circuit state holds exactly the polynomials `polys`.
pub open spec fn polys_are<P>(state: CircuitState<P>, polys: Seq<(P, P, P)>) -> bool {
    state.z_m_at_alpha_polys matches Some(v) && v@ == polys
}

/// Appends to each circuit's polynomials those that the round computed for it.
fn extend_states<P>(states: Vec<CircuitState<P>>, added: Vec<Vec<(P, P, P)>>) -> (r: Vec<CircuitState<P>>)
    requires
        states@.len() == added@.len(),
    ensures
        r@.len() == states@.len(),
        forall|c: int|
            0 <= c < states@.len() ==> polys_are(#[trigger] r@[c], held_polys(states@[c]) + added@[c]@),
{
    let ghost olds = states@;
    let ghost adds = added@;
    let mut added = added;
    let mut result: Vec<CircuitState<P>> = Vec::new();
    for state in it: states
        invariant
            it.seq() == olds,
            olds.len() == adds.len(),
            added@ == adds.skip(it.index() as int),
            result@.len() == it.index(),
            forall|c: int|
                0 <= c < it.index() ==> polys_are(#[trigger] result@[c], held_polys(olds[c]) + adds[c]@),
    {
        assert(added@.len() > 0);
        let mut new_polys = added.remove(0);
        assert(added@ =~= adds.skip(it.index() + 1));
        let polys = match state.z_m_at_alpha_polys {
            None => new_polys,
            Some(mut polys) => {
                polys.append(&mut new_polys);
                polys
            },
        };
        result.push(CircuitState { z_m_at_alpha_polys: Some(polys) });
    }
    result
}

/// Computes the linear-evaluation witnesses of all instances of all circuits (with the
/// pool of jobs), returns the message of their sums, and appends their polynomials to the
/// circuit states. If a witness fails, the state is unchanged.
pub fn calculate_prep_lineval_sumcheck_witness<F, P, E, W: Fn(usize, usize, MatrixLabel, &F) -> Result<(P, F), E>>(
    state: &mut ProverState<P>,
    first_round_batch_combiners: &Vec<BatchCombiners<F>>,
    alpha: &F,
    lineval: &W,
) -> (r: Result<ThirdMessage<F>, E>)
    requires
        forall|c: usize, i: usize, l: MatrixLabel, a: &F| call_requires(*lineval, (c, i, l, a)),
        instance_counts(first_round_batch_combiners@).len() == old(state).circuit_specific_states@.len(),
        forall|c: int|
            0 <= c < first_round_batch_combiners@.len() ==> #[trigger] instance_counts(
                first_round_batch_combiners@,
            )[c] > 0,
        3 * prefix(
            instance_counts(first_round_batch_combiners@),
            first_round_batch_combiners@.len() as int,
        ) <= usize::MAX,
    ensures
        match r {
            Ok(msg) => round_outcome(
                instance_counts(first_round_batch_combiners@),
                old(state).circuit_specific_states@,
                final(state).circuit_specific_states@,
                msg,
                *lineval,
                *alpha,
            ),
            Err(e) => *final(state) == *old(state) && first_witness_failure(
                instance_counts(first_round_batch_combiners@),
                *lineval,
                *alpha,
                e,
            ),
        },
{
    let ghost ni = instance_counts(first_round_batch_combiners@);
    let (num_instances, total_instances) = count_instances(first_round_batch_combiners);
    assert(as_nats(num_instances@) == ni);
    // Compute the lineval sumcheck witnesses.
    let (results, Ghost(args)) = create_jobs(&num_instances, total_instances, alpha, lineval);
    let values = match collect_results(results) {
        Ok(values) => values,
        Err(e) => {
            proof {
                let k = choose|k: int|
                    0 <= k < results@.len() && results@[k] == Err::<(P, F), E>(e) && forall|j: int|
                        0 <= j < k ==> #[trigger] results@[j] is Ok;
                let (c, i, l) = args[k];
                assert(call_ensures(*lineval, (c as usize, i as usize, l, alpha), results@[k]));
                assert forall|c2: int, i2: int, l2: MatrixLabel|
                    #![trigger job_index(ni, c2, i2, l2)]
                    valid_instance(ni, c2, i2) && job_index(ni, c2, i2, l2) < job_index(ni, c, i, l) implies exists|
                        v: (P, F),
                    | call_ensures(*lineval, (c2 as usize, i2 as usize, l2, alpha), Ok::<(P, F), E>(v)) by {
                    let j = job_index(ni, c2, i2, l2);
                    lemma_job_index_bounds(ni, c2, i2, l2);
                    lemma_job_index_unique(ni, args[j].0, args[j].1, args[j].2, c2, i2, l2);
                    assert(results@[j] is Ok);
                    assert(call_ensures(*lineval, (c2 as usize, i2 as usize, l2, alpha), results@[j]));
                    assert(results@[j] == Ok::<(P, F), E>(results@[j]->Ok_0));
                }
                assert(job_index(ni, c, i, l) == k);
            }
            return Err(e);
        },
    };
    let ghost vals = values@;
    let triples = group_in_triples(values);
    proof {
        assert forall|c: int, i: int|
            valid_instance(ni, c, i) implies #[trigger] triple_is(
                *lineval,
                *alpha,
                c,
                i,
                triples@[prefix(ni, c) + i],
            ) by {
            let t = prefix(ni, c) + i;
            lemma_job_index_bounds(ni, c, i, MatrixLabel::C);
            assert(triples@[t] == (vals[3 * t], vals[3 * t + 1], vals[3 * t + 2]));
            assert(job_index(ni, c, i, MatrixLabel::A) == 3 * t);
            assert(job_index(ni, c, i, MatrixLabel::B) == 3 * t + 1);
            assert(job_index(ni, c, i, MatrixLabel::C) == 3 * t + 2);
            lemma_job_index_unique(ni, args[3 * t].0, args[3 * t].1, args[3 * t].2, c, i, MatrixLabel::A);
            lemma_job_index_unique(ni, args[3 * t + 1].0, args[3 * t + 1].1, args[3 * t + 1].2, c, i, MatrixLabel::B);
            lemma_job_index_unique(ni, args[3 * t + 2].0, args[3 * t + 2].1, args[3 * t + 2].2, c, i, MatrixLabel::C);
            assert(call_ensures(*lineval, (c as usize, i as usize, MatrixLabel::A, alpha), results@[3 * t]));
            assert(call_ensures(*lineval, (c as usize, i as usize, MatrixLabel::B, alpha), results@[3 * t + 1]));
            assert(call_ensures(*lineval, (c as usize, i as usize, MatrixLabel::C, alpha), results@[3 * t + 2]));
        }
    }
    assert forall|c: int| 0 <= c < num_instances@.len() implies #[trigger] num_instances@[c] > 0 by {
        assert(as_nats(num_instances@)[c] == num_instances@[c]);
    }
    let (sums, added) = group_by_circuit(&num_instances, triples, lineval, alpha);
    // Store the z_m_at_alpha polynomials for use in the next round.
    let ghost before = state.circuit_specific_states@;
    let mut states: Vec<CircuitState<P>> = Vec::new();
    std::mem::swap(&mut states, &mut state.circuit_specific_states);
    state.circuit_specific_states = extend_states(states, added);
    proof {
        let after = state.circuit_specific_states@;
        assert forall|c: int| 0 <= c < ni.len() implies after[c].z_m_at_alpha_polys.unwrap()@.take(
            held_polys(before[c]).len() as int,
        ) == held_polys(before[c]) by {
            assert(polys_are(after[c], held_polys(before[c]) + added@[c]@));
            assert((held_polys(before[c]) + added@[c]@).take(held_polys(before[c]).len() as int) =~= held_polys(before[c]));
        }
        assert forall|c: int, i: int|
            #![trigger sums@[c]@[i]]
            valid_instance(ni, c, i) implies instance_is(
                *lineval,
                *alpha,
                c,
                i,
                after[c].z_m_at_alpha_polys.unwrap()@[held_polys(before[c]).len() + i],
                sums@[c]@[i],
            ) by {
            assert(sums@[c]@.len() == num_instances@[c]);
            assert(as_nats(num_instances@)[c] == num_instances@[c]);
            assert(added@[c]@.len() == num_instances@[c]);
            assert(polys_are(after[c], held_polys(before[c]) + added@[c]@));
            assert((held_polys(before[c]) + added@[c]@)[held_polys(before[c]).len() + i] == added@[c]@[i]);
        }
    }
    Ok(ThirdMessage { sums })
}

/// Outputs the prover's third message and the next state: the verifier must not send `eta_b`
/// or `eta_c`; then each instance of each circuit gets the witnesses of its three matrices.
pub fn prover_prepare_third_round<F, P, E, W: Fn(usize, usize, MatrixLabel, &F) -> Result<(P, F), E>>(
    verifier_message: &FirstMessage<F>,
    verifier_second_message: &SecondMessage<F>,
    state: ProverState<P>,
    lineval: W,
) -> (r: Result<(ThirdMessage<F>, ProverState<P>), ThirdRoundError<E>>)
    requires
        forall|c: usize, i: usize, l: MatrixLabel, a: &F| call_requires(lineval, (c, i, l, a)),
        verifier_second_message.eta_b is None && verifier_second_message.eta_c is None ==> {
            &&& instance_counts(verifier_message.first_round_batch_combiners@).len()
                == state.circuit_specific_states@.len()
            &&& forall|c: int|
                0 <= c < verifier_message.first_round_batch_combiners@.len() ==> #[trigger] instance_counts(
                    verifier_message.first_round_batch_combiners@,
                )[c] > 0
            &&& 3 * prefix(
                instance_counts(verifier_message.first_round_batch_combiners@),
                verifier_message.first_round_batch_combiners@.len() as int,
            ) <= usize::MAX
        },
    ensures
        (verifier_second_message.eta_b is Some || verifier_second_message.eta_c is Some) ==> r matches Err(
            ThirdRoundError::UnexpectedEta,
        ),
        match r {
            Ok((msg, next)) => verifier_second_message.eta_b is None && verifier_second_message.eta_c is None
                && round_outcome(
                instance_counts(verifier_message.first_round_batch_combiners@),
                state.circuit_specific_states@,
                next.circuit_specific_states@,
                msg,
                lineval,
                verifier_second_message.alpha,
            ),
            Err(ThirdRoundError::UnexpectedEta) => verifier_second_message.eta_b is Some
                || verifier_second_message.eta_c is Some,
            Err(ThirdRoundError::Witness(e)) => verifier_second_message.eta_b is None
                && verifier_second_message.eta_c is None && first_witness_failure(
                instance_counts(verifier_message.first_round_batch_combiners@),
                lineval,
                verifier_second_message.alpha,
                e,
            ),
        },
{
    if verifier_second_message.eta_b.is_some() || verifier_second_message.eta_c.is_some() {
        return Err(ThirdRoundError::UnexpectedEta);
    }
    let mut state = state;
    match calculate_prep_lineval_sumcheck_witness(
        &mut state,
        &verifier_message.first_round_batch_combiners,
        &verifier_second_message.alpha,
        &lineval,
    ) {
        Ok(msg) => Ok((msg, state)),
        Err(e) => Err(ThirdRoundError::Witness(e)),
    }
}

} // verus!
