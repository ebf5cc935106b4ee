use snarkvm::lineval::{
    prover_prepare_third_round, BatchCombiners, CircuitState, FirstMessage, MatrixLabel, ProverState, SecondMessage,
    ThirdRoundError,
};

fn label_number(l: MatrixLabel) -> u64 {
    match l {
        MatrixLabel::A => 1,
        MatrixLabel::B => 2,
        MatrixLabel::C => 3,
    }
}

/// A witness "polynomial" that records its circuit, instance and matrix, and its sum.
fn lineval(c: usize, i: usize, l: MatrixLabel, alpha: &u64) -> Result<(u64, u64), String> {
    let poly = 100 * c as u64 + 10 * i as u64 + label_number(l);
    Ok((poly, poly + *alpha))
}

fn first_message(instances: &[usize]) -> FirstMessage<u64> {
    FirstMessage {
        first_round_batch_combiners: instances
            .iter()
            .map(|n| BatchCombiners { circuit_combiner: 1, instance_combiners: vec![1; *n] })
            .collect(),
    }
}

fn second_message(eta_b: Option<u64>, eta_c: Option<u64>) -> SecondMessage<u64> {
    SecondMessage { alpha: 1000, eta_b, eta_c }
}

#[test]
fn third_round_sums_and_polynomials() {
    let state = ProverState {
        circuit_specific_states: vec![
            CircuitState { z_m_at_alpha_polys: None },
            CircuitState { z_m_at_alpha_polys: Some(vec![(7, 8, 9)]) },
        ],
    };
    let (msg, next) =
        prover_prepare_third_round(&first_message(&[2, 1]), &second_message(None, None), state, lineval).unwrap();
    // Circuit 0 has two instances, circuit 1 one.
    assert_eq!(msg.sums.len(), 2);
    assert_eq!(msg.sums[0].len(), 2);
    assert_eq!(msg.sums[1].len(), 1);
    assert_eq!((msg.sums[0][0].sum_a, msg.sums[0][0].sum_b, msg.sums[0][0].sum_c), (1001, 1002, 1003));
    assert_eq!((msg.sums[0][1].sum_a, msg.sums[0][1].sum_b, msg.sums[0][1].sum_c), (1011, 1012, 1013));
    assert_eq!((msg.sums[1][0].sum_a, msg.sums[1][0].sum_b, msg.sums[1][0].sum_c), (1101, 1102, 1103));
    // The polynomials are grouped in (A, B, C) triples and appended to what the state held.
    assert_eq!(next.circuit_specific_states[0].z_m_at_alpha_polys, Some(vec![(1, 2, 3), (11, 12, 13)]));
    assert_eq!(next.circuit_specific_states[1].z_m_at_alpha_polys, Some(vec![(7, 8, 9), (101, 102, 103)]));
}

#[test]
fn third_round_refuses_eta() {
    let state = ProverState { circuit_specific_states: vec![CircuitState { z_m_at_alpha_polys: None }] };
    match prover_prepare_third_round(&first_message(&[1]), &second_message(Some(1), None), state, lineval) {
        Err(ThirdRoundError::UnexpectedEta) => {}
        _ => panic!("expected an unexpected-eta error"),
    }
    let state = ProverState { circuit_specific_states: vec![CircuitState { z_m_at_alpha_polys: None }] };
    match prover_prepare_third_round(&first_message(&[1]), &second_message(None, Some(1)), state, lineval) {
        Err(ThirdRoundError::UnexpectedEta) => {}
        _ => panic!("expected an unexpected-eta error"),
    }
    // The eta check comes first, whatever the state holds.
    let empty: ProverState<u64> = ProverState { circuit_specific_states: vec![] };
    match prover_prepare_third_round(&first_message(&[2, 0]), &second_message(Some(1), Some(2)), empty, lineval) {
        Err(ThirdRoundError::UnexpectedEta) => {}
        _ => panic!("expected an unexpected-eta error"),
    }
}

#[test]
fn third_round_reports_the_first_failing_witness() {
    let failing = |c: usize, i: usize, l: MatrixLabel, _alpha: &u64| -> Result<(u64, u64), String> {
        if c == 1 || (c == 0 && i == 1 && l == MatrixLabel::B) {
            Err(format!("{c}/{i}/{l:?}"))
        } else {
            Ok((0, 0))
        }
    };
    let state = ProverState {
        circuit_specific_states: vec![
            CircuitState { z_m_at_alpha_polys: None },
            CircuitState { z_m_at_alpha_polys: None },
        ],
    };
    match prover_prepare_third_round(&first_message(&[2, 1]), &second_message(None, None), state, failing) {
        Err(ThirdRoundError::Witness(e)) => assert_eq!(e, "0/1/B"),
        _ => panic!("expected a witness error"),
    }
}
