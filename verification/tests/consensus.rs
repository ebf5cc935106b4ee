use snarkvm::consensus::{
    consensus_config_value, consensus_height, consensus_version, latest_max_certificates, ConsensusError,
    ConsensusVersion,
};

fn heights() -> Vec<(ConsensusVersion, u32)> {
    vec![
        (ConsensusVersion::V1, 0),
        (ConsensusVersion::V2, 10),
        (ConsensusVersion::V3, 20),
        (ConsensusVersion::V4, 30),
        (ConsensusVersion::V5, 40),
        (ConsensusVersion::V6, 50),
    ]
}

#[test]
fn version_at_exact_and_between_heights() {
    let h = heights();
    assert_eq!(consensus_version(&h, 0), Ok(ConsensusVersion::V1));
    assert_eq!(consensus_version(&h, 9), Ok(ConsensusVersion::V1));
    assert_eq!(consensus_version(&h, 10), Ok(ConsensusVersion::V2));
    assert_eq!(consensus_version(&h, 35), Ok(ConsensusVersion::V4));
    assert_eq!(consensus_version(&h, 50), Ok(ConsensusVersion::V6));
    assert_eq!(consensus_version(&h, u32::MAX), Ok(ConsensusVersion::V6));
}

#[test]
fn version_before_genesis_is_an_error() {
    let h = vec![(ConsensusVersion::V1, 5), (ConsensusVersion::V2, 7)];
    assert_eq!(consensus_version(&h, 4), Err(ConsensusError::MissingGenesisVersion));
    assert_eq!(consensus_version(&[], 4), Err(ConsensusError::MissingGenesisVersion));
}

#[test]
fn version_height_roundtrip() {
    let h = heights();
    for (version, height) in h.iter() {
        assert_eq!(consensus_height(&h, *version), Ok(*height));
        assert_eq!(consensus_version(&h, *height), Ok(*version));
    }
}

#[test]
fn height_of_missing_version_is_an_error() {
    let h = vec![(ConsensusVersion::V1, 0), (ConsensusVersion::V2, 10)];
    assert_eq!(consensus_height(&h, ConsensusVersion::V3), Err(ConsensusError::InvalidConsensusVersion));
    assert_eq!(consensus_height(&h, ConsensusVersion::V2), Ok(10));
}

#[test]
fn latest_max_certificates_is_the_last_entry() {
    let table = vec![(ConsensusVersion::V1, 16u16), (ConsensusVersion::V3, 25), (ConsensusVersion::V5, 30)];
    assert_eq!(latest_max_certificates(&table), Ok(30));
    assert_eq!(latest_max_certificates(&[]), Err(ConsensusError::NoMaxCertificates));
}

#[test]
fn config_value_follows_the_version_in_effect() {
    let h = heights();
    let table = vec![(ConsensusVersion::V2, 16u16), (ConsensusVersion::V4, 25), (ConsensusVersion::V5, 30)];
    // Not yet in effect under version 1.
    assert_eq!(consensus_config_value(&h, &table, 5), None);
    assert_eq!(consensus_config_value(&h, &table, 10), Some(16));
    // Version 3 has no entry: the value of version 2 stays in effect.
    assert_eq!(consensus_config_value(&h, &table, 25), Some(16));
    assert_eq!(consensus_config_value(&h, &table, 30), Some(25));
    assert_eq!(consensus_config_value(&h, &table, 45), Some(30));
    assert_eq!(consensus_config_value(&h, &table, 60), Some(30));
    // Before genesis no version is in effect.
    let late = vec![(ConsensusVersion::V1, 100)];
    assert_eq!(consensus_config_value(&late, &table, 5), None);
}

#[test]
fn version_numbers() {
    assert_eq!(ConsensusVersion::V1.as_number(), 1);
    assert_eq!(ConsensusVersion::V6.as_number(), 6);
    assert!(ConsensusVersion::V2 < ConsensusVersion::V3);
}

#[test]
fn version_never_decreases_with_height() {
    let h = heights();
    let mut previous = consensus_version(&h, 0).unwrap();
    for height in (0..70u32).step_by(3) {
        let v = consensus_version(&h, height).unwrap();
        assert!(previous <= v);
        previous = v;
    }
}
